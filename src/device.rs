use vstd::prelude::*;
use vstd::string::{StrSliceExecFns, StringExecFns};
use crate::file_tree::tag_is;

verus! {

/// Bytes in one of the gigabytes that storage figures are given in.
pub const BYTES_PER_GB: u64 = 1000000000;

/// Disk figures of a device, in whole gigabytes.
#[derive(Debug, Clone, Copy)]
pub struct Storage {
    pub total: u64,
    pub used: u64,
    pub available: u64,
}

impl Storage {
    /// The figures for a disk of `total_bytes` bytes of which `available_bytes` are
    /// free: each size is cut down to whole gigabytes, and what is used is the
    /// difference of the two.
    pub fn from_disk_usage(total_bytes: u64, available_bytes: u64) -> (r: Storage)
        requires
            available_bytes / BYTES_PER_GB <= total_bytes / BYTES_PER_GB,
        ensures
            r.total == total_bytes / BYTES_PER_GB,
            r.available == available_bytes / BYTES_PER_GB,
            r.used == r.total - r.available,
    {
        let total = total_bytes / BYTES_PER_GB;
        let available = available_bytes / BYTES_PER_GB;
        Storage { total, used: total - available, available }
    }
}

/// The first of the devices found, or the error that none was found.
pub fn select_first_device<T>(devices: Vec<T>) -> (r: Result<T, String>)
    ensures
        devices.len() == 0 <==> r is Err,
        devices.len() == 0 ==> r->Err_0@ == "devices are empty"@,
        devices.len() > 0 ==> r == Ok::<T, String>(devices@[0]),
{
    let mut devices = devices;
    if devices.len() == 0 {
        Err(String::from_str("devices are empty"))
    } else {
        Ok(devices.remove(0))
    }
}

/// The market that a region code stands for.
pub open spec fn region_of(code: Seq<char>) -> Seq<char> {
    if code == "LL/A"@ {
        "United States"@
    } else if code == "B/A"@ {
        "Canada"@
    } else if code == "C/A"@ {
        "Europe"@
    } else if code == "J/A"@ {
        "Japan"@
    } else if code == "X/A"@ {
        "China"@
    } else if code == "ZP/A"@ {
        "Global/International"@
    } else if code == "KH/A"@ {
        "Hong Kong"@
    } else if code == "M/A"@ {
        "Mexico"@
    } else if code == "A/A"@ {
        "Argentina"@
    } else if code == "T/A"@ {
        "Taiwan"@
    } else if code == "V/A"@ {
        "United Kingdom"@
    } else if code == "R/A"@ {
        "Russia"@
    } else {
        "unknown"@
    }
}

/// The market that the region code `code` stands for (`"unknown"` for any other code).
pub fn region_name(code: &String) -> (r: String)
    ensures
        r@ == region_of(code@),
{
    proof {
        reveal_strlit("LL/A");
        reveal_strlit("B/A");
        reveal_strlit("C/A");
        reveal_strlit("J/A");
        reveal_strlit("X/A");
        reveal_strlit("ZP/A");
        reveal_strlit("KH/A");
        reveal_strlit("M/A");
        reveal_strlit("A/A");
        reveal_strlit("T/A");
        reveal_strlit("V/A");
        reveal_strlit("R/A");
    }
    if tag_is(code, "LL/A") {
        String::from_str("United States")
    } else if tag_is(code, "B/A") {
        String::from_str("Canada")
    } else if tag_is(code, "C/A") {
        String::from_str("Europe")
    } else if tag_is(code, "J/A") {
        String::from_str("Japan")
    } else if tag_is(code, "X/A") {
        String::from_str("China")
    } else if tag_is(code, "ZP/A") {
        String::from_str("Global/International")
    } else if tag_is(code, "KH/A") {
        String::from_str("Hong Kong")
    } else if tag_is(code, "M/A") {
        String::from_str("Mexico")
    } else if tag_is(code, "A/A") {
        String::from_str("Argentina")
    } else if tag_is(code, "T/A") {
        String::from_str("Taiwan")
    } else if tag_is(code, "V/A") {
        String::from_str("United Kingdom")
    } else if tag_is(code, "R/A") {
        String::from_str("Russia")
    } else {
        String::from_str("unknown")
    }
}

/// What a model number says of the unit, by its first character.
pub open spec fn model_meaning_of(code: Seq<char>) -> Seq<char> {
    let first = if code.len() > 0 {
        code[0]
    } else {
        '\0'
    };
    if first == 'F' {
        "Refurbished Device"@
    } else if first == 'M' {
        "New Device"@
    } else if first == 'N' {
        "Warranty Replacement Device"@
    } else if first == 'P' {
        "Personalized Device"@
    } else if first == '3' {
        "Demo Device"@
    } else {
        "Unknown"@
    }
}

/// What the model number `code` says of the unit.
pub fn model_meaning(code: &String) -> (r: &'static str)
    ensures
        r@ == model_meaning_of(code@),
{
    let s = code.as_str();
    let first = if s.unicode_len() > 0 {
        s.get_char(0)
    } else {
        '\0'
    };
    if first == 'F' {
        "Refurbished Device"
    } else if first == 'M' {
        "New Device"
    } else if first == 'N' {
        "Warranty Replacement Device"
    } else if first == 'P' {
        "Personalized Device"
    } else if first == '3' {
        "Demo Device"
    } else {
        "Unknown"
    }
}

/// A model number followed by its meaning in parentheses: `code (meaning)`.
pub open spec fn model_number_text(code: Seq<char>) -> Seq<char> {
    code + " ("@ + model_meaning_of(code) + ")"@
}

/// Hardware description of a device, as shown to the user.
#[derive(Debug)]
pub struct Hardware {
    pub model: String,
    pub model_number: String,
    pub region: String,
}

/// A value read from the device, or the empty text where it could not be read.
pub open spec fn or_empty(v: Option<Seq<char>>) -> Seq<char> {
    match v {
        Some(s) => s,
        None => Seq::empty(),
    }
}

/// The product type read from the device, or `Unknown` where it could not be read.
pub open spec fn or_unknown(v: Option<Seq<char>>) -> Seq<char> {
    match v {
        Some(s) => s,
        None => "Unknown"@,
    }
}

/// The characters of an optional string.
pub open spec fn opt_view(v: Option<String>) -> Option<Seq<char>> {
    match v {
        Some(s) => Some(s@),
        None => None,
    }
}

fn text_or_empty(v: Option<String>) -> (r: String)
    ensures
        r@ == or_empty(opt_view(v)),
{
    match v {
        Some(s) => s,
        None => String::new(),
    }
}

impl Hardware {
    /// The description built from the values read for the region, the model number
    /// and the product type (`None` where a read failed).
    pub fn from_values(
        region_code: Option<String>,
        model_number_code: Option<String>,
        product_type: Option<String>,
    ) -> (r: Hardware)
        ensures
            r.region@ == region_of(or_empty(opt_view(region_code))),
            r.model_number@ == model_number_text(or_empty(opt_view(model_number_code))),
            r.model@ == or_unknown(opt_view(product_type)),
    {
        let region_code = text_or_empty(region_code);
        let region = region_name(&region_code);
        let code = text_or_empty(model_number_code);
        let meaning = model_meaning(&code);
        let model_number = code.clone().concat(" (").concat(meaning).concat(")");
        let model = match product_type {
            Some(s) => s,
            None => String::from_str("Unknown"),
        };
        Hardware { model, model_number, region }
    }
}

/// Operating-system description of a device.
#[derive(Debug)]
pub struct OS {
    pub ios_ver: String,
    pub build_num: String,
}

impl OS {
    /// The description built from the values read for the product version and the
    /// build version (`None` where a read failed).
    pub fn from_values(product_version: Option<String>, build_version: Option<String>) -> (r: OS)
        ensures
            r.ios_ver@ == or_empty(opt_view(product_version)),
            r.build_num@ == or_empty(opt_view(build_version)),
    {
        OS { ios_ver: text_or_empty(product_version), build_num: text_or_empty(build_version) }
    }
}


/// What is left of a product type once every leading `iPhone` is taken off.
pub open spec fn strip_model_prefix(s: Seq<char>) -> Seq<char>
    decreases s.len(),
{
    if s.len() >= 6 && s.subrange(0, 6) == "iPhone"@ {
        strip_model_prefix(s.subrange(6, s.len() as int))
    } else {
        s
    }
}

/// The text before the first comma, where there is a comma.
pub open spec fn first_field(s: Seq<char>) -> Option<Seq<char>>
    decreases s.len(),
{
    if s.len() == 0 {
        None
    } else if s[0] == ',' {
        Some(Seq::empty())
    } else {
        match first_field(s.drop_first()) {
            Some(t) => Some(seq![s[0]] + t),
            None => None,
        }
    }
}

/// Every character of `s` is a decimal digit.
pub open spec fn all_digits(s: Seq<char>) -> bool {
    forall|i: int| 0 <= i < s.len() ==> '0' <= #[trigger] s[i] <= '9'
}

/// The number that the decimal digits `s` write.
pub open spec fn digits_value(s: Seq<char>) -> int
    decreases s.len(),
{
    if s.len() == 0 {
        0
    } else {
        digits_value(s.drop_last()) * 10 + (s.last() as int - '0' as int)
    }
}

/// The byte that `s` writes in decimal, with an optional leading `+`, if it is one.
pub open spec fn parse_u8(s: Seq<char>) -> Option<int> {
    let body = if s.len() > 0 && s[0] == '+' {
        s.drop_first()
    } else {
        s
    };
    if body.len() > 0 && all_digits(body) && digits_value(body) <= 255 {
        Some(digits_value(body))
    } else {
        None
    }
}

/// The generation number of a product type such as `iPhone9,3`: the number before the
/// comma, or 0 where there is none or it is not a byte.
pub open spec fn model_generation(product: Seq<char>) -> int {
    match first_field(strip_model_prefix(product)) {
        Some(code) => match parse_u8(code) {
            Some(n) => n,
            None => 0,
        },
        None => 0,
    }
}

/// The registry entry that holds the battery figures of a product: older models (up to
/// generation 9) keep them in the charger entry.
pub open spec fn battery_key_of(product: Seq<char>) -> Seq<char> {
    if model_generation(product) <= 9 {
        "AppleARMPMUCharger"@
    } else {
        "AppleSmartBattery"@
    }
}

fn has_model_prefix_at(s: &str, start: usize) -> (r: bool)
    requires
        start <= s@.len(),
    ensures
        r == (start + 6 <= s@.len() && s@.subrange(start as int, start + 6) == "iPhone"@),
{
    proof {
        reveal_strlit("iPhone");
    }
    let n = s.unicode_len();
    if n - start < 6 {
        return false;
    }
    let r = s.get_char(start) == 'i' && s.get_char(start + 1) == 'P' && s.get_char(start + 2) == 'h'
        && s.get_char(start + 3) == 'o' && s.get_char(start + 4) == 'n' && s.get_char(start + 5)
        == 'e';
    if r {
        assert(s@.subrange(start as int, start + 6) =~= "iPhone"@);
    } else {
        assert(s@.subrange(start as int, start + 6) != "iPhone"@) by {
            if s@.subrange(start as int, start + 6) == "iPhone"@ {
                assert(s@.subrange(start as int, start + 6)[0] == 'i');
                assert(s@.subrange(start as int, start + 6)[1] == 'P');
                assert(s@.subrange(start as int, start + 6)[2] == 'h');
                assert(s@.subrange(start as int, start + 6)[3] == 'o');
                assert(s@.subrange(start as int, start + 6)[4] == 'n');
                assert(s@.subrange(start as int, start + 6)[5] == 'e');
            }
        }
    }
    r
}

proof fn lemma_first_field_at(s: Seq<char>, j: int)
    requires
        0 <= j < s.len(),
        s[j] == ',',
        forall|i: int| 0 <= i < j ==> s[i] != ',',
    ensures
        first_field(s) == Some(s.take(j)),
    decreases j,
{
    if j > 0 {
        lemma_first_field_at(s.drop_first(), j - 1);
        assert(seq![s[0]] + s.drop_first().take(j - 1) =~= s.take(j));
    }
}

proof fn lemma_first_field_none(s: Seq<char>)
    requires
        forall|i: int| 0 <= i < s.len() ==> s[i] != ',',
    ensures
        first_field(s) is None,
    decreases s.len(),
{
    if s.len() > 0 {
        lemma_first_field_none(s.drop_first());
    }
}

fn parse_u8_at(s: &str, from: usize, to: usize) -> (r: Option<u8>)
    requires
        from <= to <= s@.len(),
    ensures
        match parse_u8(s@.subrange(from as int, to as int)) {
            Some(n) => 0 <= n <= 255 && r == Some(n as u8),
            None => r is None,
        },
{
    let ghost text = s@.subrange(from as int, to as int);
    let mut i = from;
    if i < to && s.get_char(i) == '+' {
        i += 1;
    }
    let ghost body = s@.subrange(i as int, to as int);
    assert(body == (if text.len() > 0 && text[0] == '+' {
        text.drop_first()
    } else {
        text
    }));
    if i == to {
        return None;
    }
    let start = i;
    let mut acc: u32 = 0;
    while i < to
        invariant
            start <= i <= to <= s@.len(),
            text == s@.subrange(from as int, to as int),
            body == (if text.len() > 0 && text[0] == '+' {
                text.drop_first()
            } else {
                text
            }),
            body == s@.subrange(start as int, to as int),
            all_digits(s@.subrange(start as int, i as int)),
            acc as int == if digits_value(s@.subrange(start as int, i as int)) > 256 {
                256
            } else {
                digits_value(s@.subrange(start as int, i as int))
            },
        decreases to - i,
    {
        let c = s.get_char(i);
        if !('0' <= c && c <= '9') {
            assert(body[i - start] == c);
            assert(!all_digits(body));
            return None;
        }
        let d = (c as u32) - ('0' as u32);
        let ghost prev = s@.subrange(start as int, i as int);
        let ghost next = s@.subrange(start as int, i + 1);
        assert(next.drop_last() =~= prev);
        assert(next.last() == c);
        assert(digits_value(next) == digits_value(prev) * 10 + d);
        proof {
            lemma_digits_nonneg(prev);
            if digits_value(prev) > 256 {
                assert(digits_value(prev) * 10 + d > 256) by (nonlinear_arith)
                    requires
                        digits_value(prev) > 256,
                        d >= 0,
                ;
            }
        }
        let v = acc * 10 + d;
        acc = if v > 256 {
            256
        } else {
            v
        };
        i += 1;
        assert(all_digits(s@.subrange(start as int, i as int)));
    }
    assert(s@.subrange(start as int, i as int) == body);
    proof {
        lemma_digits_nonneg(body);
    }
    if acc > 255 {
        None
    } else {
        Some(acc as u8)
    }
}

proof fn lemma_digits_nonneg(s: Seq<char>)
    requires
        all_digits(s),
    ensures
        digits_value(s) >= 0,
    decreases s.len(),
{
    if s.len() > 0 {
        assert(all_digits(s.drop_last()));
        lemma_digits_nonneg(s.drop_last());
    }
}

/// The registry entry that holds the battery figures of the product type `product`.
pub fn battery_registry_key(product: &str) -> (r: &'static str)
    ensures
        r@ == battery_key_of(product@),
{
    let n = product.unicode_len();
    let mut start: usize = 0;
    assert(product@.subrange(0, n as int) =~= product@);
    loop
        invariant
            start <= n,
            n == product@.len(),
            strip_model_prefix(product@) == strip_model_prefix(
                product@.subrange(start as int, n as int),
            ),
        ensures
            start <= n,
            n == product@.len(),
            strip_model_prefix(product@) == strip_model_prefix(
                product@.subrange(start as int, n as int),
            ),
            !(start + 6 <= product@.len() && product@.subrange(start as int, start + 6)
                == "iPhone"@),
        decreases n - start,
    {
        if !has_model_prefix_at(product, start) {
            break;
        }
        proof {
            let rest = product@.subrange(start as int, n as int);
            assert(rest.subrange(0, 6) == product@.subrange(start as int, start + 6));
            assert(rest.subrange(6, rest.len() as int) == product@.subrange(start + 6, n as int));
        }
        start = start + 6;
    }
    let ghost rest = product@.subrange(start as int, n as int);
    proof {
        if rest.len() >= 6 {
            assert(rest.subrange(0, 6) =~= product@.subrange(start as int, start + 6));
        }
        assert(strip_model_prefix(rest) == rest);
    }
    assert(strip_model_prefix(product@) == rest);
    let mut j: usize = start;
    while j < n && product.get_char(j) != ','
        invariant
            start <= j <= n,
            n == product@.len(),
            rest == product@.subrange(start as int, n as int),
            strip_model_prefix(product@) == rest,
            forall|i: int| start <= i < j ==> product@[i] != ',',
        decreases n - j,
    {
        j += 1;
    }
    let generation: u8 = if j == n {
        proof {
            assert forall|i: int| 0 <= i < rest.len() implies rest[i] != ',' by {
                assert(rest[i] == product@[start + i]);
            }
            lemma_first_field_none(rest);
        }
        0
    } else {
        proof {
            assert forall|i: int| 0 <= i < j - start implies rest[i] != ',' by {
                assert(rest[i] == product@[start + i]);
            }
            assert(rest[j - start] == product@[j as int]);
            lemma_first_field_at(rest, j - start);
            assert(rest.take(j - start) == product@.subrange(start as int, j as int));
        }
        match parse_u8_at(product, start, j) {
            Some(g) => g,
            None => 0,
        }
    };
    assert(generation == model_generation(product@));
    if generation <= 9 {
        "AppleARMPMUCharger"
    } else {
        "AppleSmartBattery"
    }
}

} // verus!
