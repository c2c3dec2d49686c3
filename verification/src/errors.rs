use vstd::prelude::*;

verus! {

/// A deterministic validation failure raised by a sketch operation. It
/// carries a short description naming the check that failed; the contracts of
/// the operations pin down exactly which description comes with which input.
#[derive(Debug)]
pub struct BinaryCountSketchError {
    details: String,
}

impl View for BinaryCountSketchError {
    type V = Seq<char>;

    closed spec fn view(&self) -> Seq<char> {
        self.details@
    }
}

/// Description of a level mismatch: a fold to a level that is not strictly
/// smaller, or an operand whose level differs.
pub open spec fn msg_incorrect_level() -> Seq<char> {
    "Incorrect level"@
}

/// Description of an operand whose base length differs.
pub open spec fn msg_incorrect_base_length() -> Seq<char> {
    "Incorrect base length"@
}

/// Description of an operand whose points count differs.
pub open spec fn msg_incorrect_points() -> Seq<char> {
    "Incorrect points"@
}

/// Description of an operand whose word count differs.
pub open spec fn msg_incorrect_words_length() -> Seq<char> {
    "Incorrect words length"@
}

/// Description of an acceptance threshold above the sketch's points count.
pub open spec fn msg_incorrect_threshold() -> Seq<char> {
    "Incorrect threshold"@
}

impl BinaryCountSketchError {
    pub fn new(details: &str) -> (r: Self)
        ensures
            r@ == details@,
    {
        let d = details.to_string();
        proof {
            vstd::string::to_string_from_display_ensures_for_str(details, d);
        }
        BinaryCountSketchError { details: d }
    }

    /// The stored description, for reporting to a caller.
    pub fn message(&self) -> (r: &str)
        ensures
            r@ == self@,
    {
        self.details.as_str()
    }
}

} // verus!
