use vstd::prelude::*;
use vstd::string::StringExecFns;

verus! {

/// The two-channel result of a fallible boundary call: a payload on success, a
/// message on failure, and never both nor neither.
#[derive(Debug)]
pub struct RustResult<T> {
    pub ok: Option<T>,
    pub err: Option<String>,
}

impl<T> RustResult<T> {
    /// Exactly one of the two channels is filled.
    pub open spec fn wf(&self) -> bool {
        self.ok.is_some() != self.err.is_some()
    }

    /// The result that hands `value` to the caller.
    pub fn success(value: T) -> (r: RustResult<T>)
        ensures
            r.wf(),
            r.ok == Some(value),
    {
        RustResult { ok: Some(value), err: None }
    }

    /// The result that reports the failure `message`.
    pub fn failure(message: String) -> (r: RustResult<T>)
        ensures
            r.wf(),
            r.ok.is_none(),
            r.err == Some(message),
    {
        RustResult { ok: None, err: Some(message) }
    }

    /// The boundary form of an ordinary outcome: `Ok` goes to the payload channel,
    /// `Err` to the message channel.
    pub fn from_outcome(outcome: Result<T, String>) -> (r: RustResult<T>)
        ensures
            r.wf(),
            outcome is Ok ==> r.ok == Some(outcome->Ok_0),
            outcome is Err ==> r.err == Some(outcome->Err_0),
    {
        match outcome {
            Ok(v) => RustResult::success(v),
            Err(e) => RustResult::failure(e),
        }
    }

    pub fn is_ok(&self) -> (r: bool)
        ensures
            r == self.ok.is_some(),
    {
        self.ok.is_some()
    }

    pub fn is_err(&self) -> (r: bool)
        ensures
            r == self.err.is_some(),
    {
        self.err.is_some()
    }
}

/// The message of a caught panic: its text where the payload is text, else a fixed
/// placeholder.
pub open spec fn panic_message(payload: Option<Seq<char>>) -> Seq<char> {
    match payload {
        Some(text) => text,
        None => "Unknown panic"@,
    }
}

/// The message of a caught panic whose payload, where it is text, is `payload`.
pub fn get_panic_msg(payload: Option<&str>) -> (r: String)
    ensures
        r@ == panic_message(
            match payload {
                Some(t) => Some(t@),
                None => None,
            },
        ),
{
    match payload {
        Some(text) => String::from_str(text),
        None => String::from_str("Unknown panic"),
    }
}

/// The error text that a boundary function named `function` returns when its body
/// panicked.
pub open spec fn panic_report(function: Seq<char>, message: Seq<char>) -> Seq<char> {
    "rust "@ + function + " function paniced: "@ + message
}

/// The result of a boundary call whose body either finished with `outcome` or
/// panicked with a text payload `panic_text` (`None` where the payload is not text).
/// A panic becomes a failure that names the function; it never passes the boundary.
pub fn contain_panic<T>(function: &str, finished: Option<Result<T, String>>, panic_text: Option<&str>) -> (r: RustResult<T>)
    ensures
        r.wf(),
        finished is Some ==> (finished->Some_0 is Ok ==> r.ok == Some(finished->Some_0->Ok_0)),
        finished is Some ==> (finished->Some_0 is Err ==> r.err == Some(finished->Some_0->Err_0)),
        finished is None ==> r.ok.is_none() && r.err.is_some() && r.err->Some_0@ == panic_report(
            function@,
            panic_message(
                match panic_text {
                    Some(t) => Some(t@),
                    None => None,
                },
            ),
        ),
{
    match finished {
        Some(outcome) => RustResult::from_outcome(outcome),
        None => {
            let message = get_panic_msg(panic_text);
            let text = String::from_str("rust ").concat(function).concat(" function paniced: ").concat(
                message.as_str(),
            );
            RustResult::failure(text)
        },
    }
}

} // verus!
