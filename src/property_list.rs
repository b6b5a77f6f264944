use vstd::prelude::*;
use crate::file_tree::tag_is;

verus! {

/// A property-list value, as far as device information is read from it.
#[derive(Debug)]
pub enum PlistEntry {
    /// A text value.
    Text(String),
    /// An integer that fits an unsigned 64-bit number.
    Unsigned(u64),
    /// A dictionary, its fields in their stored order.
    Dict(Vec<PlistField>),
    /// Any other value.
    Other,
}

/// One key and value of a dictionary.
#[derive(Debug)]
pub struct PlistField {
    pub key: String,
    pub value: PlistEntry,
}

/// The characters of each key and value of `v`, in order.
pub open spec fn pairs_view(v: Seq<(String, String)>) -> Seq<(Seq<char>, Seq<char>)> {
    v.map_values(|p: (String, String)| (p.0@, p.1@))
}

/// The text entries of `e`, nested dictionaries flattened in place, in stored order.
/// A later pair with the key of an earlier one stands for it.
pub open spec fn flat_entry(e: PlistEntry) -> Seq<(Seq<char>, Seq<char>)>
    decreases e, 0int,
{
    match e {
        PlistEntry::Dict(fields) => flat_fields(fields, fields.len() as int),
        _ => Seq::empty(),
    }
}

/// The flattened text entries of the first `k` fields of `fields`.
pub open spec fn flat_fields(fields: Vec<PlistField>, k: int) -> Seq<(Seq<char>, Seq<char>)>
    decreases fields, k,
{
    if k <= 0 || k > fields.len() {
        Seq::empty()
    } else {
        let f = fields@[k - 1];
        flat_fields(fields, k - 1) + match f.value {
            PlistEntry::Dict(_) => flat_entry(f.value),
            PlistEntry::Text(s) => seq![(f.key@, s@)],
            _ => Seq::empty(),
        }
    }
}

fn append_flat(out: &mut Vec<(String, String)>, e: &PlistEntry)
    ensures
        pairs_view(final(out)@) == pairs_view(old(out)@) + flat_entry(*e),
    decreases e, 0int,
{
    match e {
        PlistEntry::Dict(fields) => {
            let mut k: usize = 0;
            let ghost start = pairs_view(out@);
            while k < fields.len()
                invariant
                    k <= fields.len(),
                    *e == PlistEntry::Dict(*fields),
                    pairs_view(out@) == start + flat_fields(*fields, k as int),
                decreases fields.len() - k,
            {
                let f = &fields[k];
                proof {
                    let fs = (*e)->Dict_0;
                    assert(fs == *fields);
                    assert(decreases_to!(*e => fs));
                    assert(decreases_to!(fs => fs@));
                    assert(decreases_to!(fs@ => fs@[k as int]));
                    assert(decreases_to!(fs@[k as int] => fs@[k as int].value));
                    assert(decreases_to!(*e => f.value));
                }
                let ghost before = pairs_view(out@);
                match &f.value {
                    PlistEntry::Dict(_) => {
                        append_flat(out, &f.value);
                    },
                    PlistEntry::Text(s) => {
                        out.push((f.key.clone(), s.clone()));
                        assert(pairs_view(out@) =~= before + seq![(f.key@, s@)]);
                    },
                    _ => {},
                }
                k += 1;
                assert(start + flat_fields(*fields, k as int) =~= pairs_view(out@));
            }
        },
        _ => {
            assert(pairs_view(out@) =~= pairs_view(out@) + Seq::<(Seq<char>, Seq<char>)>::empty());
        },
    }
}

/// The text entries of a device-information value, nested dictionaries flattened in
/// place; a value that is not a dictionary has none.
pub fn value_to_dict(value: &PlistEntry) -> (r: Vec<(String, String)>)
    ensures
        pairs_view(r@) == flat_entry(*value),
{
    let mut r: Vec<(String, String)> = Vec::new();
    append_flat(&mut r, value);
    assert(pairs_view(r@) =~= Seq::<(Seq<char>, Seq<char>)>::empty() + flat_entry(*value));
    r
}

/// The first value stored under `key` in `fields`, searching depth first: each field
/// in order, and inside a dictionary value before the fields after it.
pub open spec fn find_in_fields(fields: Vec<PlistField>, key: Seq<char>, k: int) -> Option<
    PlistEntry,
>
    decreases fields, fields.len() - k,
{
    if k < 0 || k >= fields.len() {
        None
    } else {
        let f = fields@[k];
        if f.key@ == key {
            Some(f.value)
        } else {
            let inner = match f.value {
                PlistEntry::Dict(sub) => find_in_fields(sub, key, 0),
                _ => None,
            };
            if inner is Some {
                inner
            } else {
                find_in_fields(fields, key, k + 1)
            }
        }
    }
}

/// The number that a found value gives: the value itself where it is an unsigned
/// integer, else 0; and 0 where nothing was found.
pub open spec fn number_of(found: Option<PlistEntry>) -> u64 {
    match found {
        Some(PlistEntry::Unsigned(n)) => n,
        _ => 0,
    }
}

fn find_from<'a>(fields: &'a Vec<PlistField>, key: &String, k: usize) -> (r: Option<&'a PlistEntry>)
    requires
        k <= fields.len(),
    ensures
        match find_in_fields(*fields, key@, k as int) {
            Some(v) => r == Some(&v),
            None => r is None,
        },
    decreases fields, fields.len() - k,
{
    if k >= fields.len() {
        return None;
    }
    let f = &fields[k];
    if tag_is(&f.key, key.as_str()) {
        return Some(&f.value);
    }
    let inner = match &f.value {
        PlistEntry::Dict(sub) => {
            assert(decreases_to!(*fields => *sub));
            find_from(sub, key, 0)
        },
        _ => None,
    };
    if inner.is_some() {
        inner
    } else {
        find_from(fields, key, k + 1)
    }
}

/// The number stored first under `key` in the registry dictionary `fields`, searching
/// depth first; 0 where there is none or it is not an unsigned integer.
pub fn registry_number(fields: &Vec<PlistField>, key: &String) -> (r: u64)
    ensures
        r == number_of(find_in_fields(*fields, key@, 0)),
{
    match find_from(fields, key, 0) {
        Some(PlistEntry::Unsigned(n)) => *n,
        _ => 0,
    }
}


/// The JSON text of an object built by inserting the string members `pairs` in order.
pub uninterp spec fn json_object_of(pairs: Seq<(Seq<char>, Seq<char>)>) -> Seq<char>;

/// Relies on serde_json::to_string over a serde_json::Map collected from `pairs` (a
/// later key replaces an earlier one): the text depends on the pairs alone.
#[verifier::external_body]
fn json_object_text(pairs: &Vec<(String, String)>) -> (r: String)
    ensures
        r@ == json_object_of(pairs_view(pairs@)),
{
    let map: serde_json::Map<String, serde_json::Value> = pairs
        .iter()
        .map(|(k, v)| (k.clone(), serde_json::Value::String(v.clone())))
        .collect();
    serde_json::to_string(&map).unwrap_or_default()
}

/// The device information `info` as the JSON object of its flattened text entries.
pub fn device_info_json(info: &PlistEntry) -> (r: String)
    ensures
        r@ == json_object_of(flat_entry(*info)),
{
    let pairs = value_to_dict(info);
    json_object_text(&pairs)
}

} // verus!
