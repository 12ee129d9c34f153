//! Settings as they come from a JSON document.

use vstd::prelude::*;

use crate::text::same_text;

verus! {

/// A number of a JSON document.
#[derive(Debug, Clone, Copy, PartialEq, Eq, Structural)]
pub enum Number {
    /// A whole number that is not negative.
    Unsigned(u64),
    /// A negative whole number.
    Negative(i64),
    /// A number with a fraction or an exponent, or one that is too large. No
    /// setting takes one.
    Fraction,
}

/// A value of a JSON document.
#[derive(Debug)]
pub enum Json {
    Null,
    Bool(bool),
    Number(Number),
    Text(String),
    List(Vec<Json>),
    Object(Vec<(String, Json)>),
}

impl Number {
    /// The number as a signed one of 64 bits.
    pub open spec fn signed(self) -> Option<i64> {
        match self {
            Number::Unsigned(n) => if n <= i64::MAX {
                Some(n as i64)
            } else {
                None
            },
            Number::Negative(n) => Some(n),
            Number::Fraction => None,
        }
    }

    /// The number as an unsigned one of 64 bits.
    pub open spec fn unsigned(self) -> Option<u64> {
        match self {
            Number::Unsigned(n) => Some(n),
            _ => None,
        }
    }

    /// The number as a signed one of 64 bits.
    pub fn as_i64(&self) -> (n: Option<i64>)
        ensures
            n == self.signed(),
    {
        match self {
            Number::Unsigned(n) => if *n <= 0x7FFF_FFFF_FFFF_FFFF {
                Some(*n as i64)
            } else {
                None
            },
            Number::Negative(n) => Some(*n),
            Number::Fraction => None,
        }
    }

    /// The number as an unsigned one of 64 bits.
    pub fn as_u64(&self) -> (n: Option<u64>)
        ensures
            n == self.unsigned(),
    {
        match self {
            Number::Unsigned(n) => Some(*n),
            _ => None,
        }
    }
}

/// The value of the first field of that name.
pub open spec fn member(fields: Seq<(String, Json)>, key: Seq<char>) -> Option<Json>
    decreases fields.len(),
{
    if fields.len() == 0 {
        None
    } else if fields[0].0@ == key {
        Some(fields[0].1)
    } else {
        member(fields.skip(1), key)
    }
}

/// The value of the first field of that name.
pub fn find_member<'a>(fields: &'a Vec<(String, Json)>, key: &str) -> (r: Option<&'a Json>)
    ensures
        match r {
            Some(j) => member(fields@, key@) == Some(*j),
            None => member(fields@, key@) is None,
        },
{
    let mut i: usize = 0;
    assert(fields@.skip(0) =~= fields@);
    while i < fields.len()
        invariant
            i <= fields@.len(),
            member(fields@.skip(i as int), key@) == member(fields@, key@),
        decreases fields@.len() - i,
    {
        if same_text(fields[i].0.as_str(), key) {
            return Some(&fields[i].1);
        }
        assert(fields@.skip(i as int).skip(1) =~= fields@.skip(i + 1));
        i += 1;
    }
    None
}

impl Json {
    /// The value of that field, where this is an object that has it.
    pub open spec fn field(self, key: Seq<char>) -> Option<Json> {
        match self {
            Json::Object(fields) => member(fields@, key),
            _ => None,
        }
    }

    /// The text, where this is one.
    pub open spec fn text(self) -> Option<Seq<char>> {
        match self {
            Json::Text(s) => Some(s@),
            _ => None,
        }
    }

    /// The value as a signed number of 64 bits.
    pub open spec fn signed(self) -> Option<i64> {
        match self {
            Json::Number(n) => n.signed(),
            _ => None,
        }
    }

    /// The value as an unsigned number of 64 bits.
    pub open spec fn unsigned(self) -> Option<u64> {
        match self {
            Json::Number(n) => n.unsigned(),
            _ => None,
        }
    }

    /// The truth value, where this is one.
    pub open spec fn truth(self) -> Option<bool> {
        match self {
            Json::Bool(b) => Some(b),
            _ => None,
        }
    }

    /// The value of that field, where this is an object that has it.
    pub fn get(&self, key: &str) -> (r: Option<&Json>)
        ensures
            match r {
                Some(j) => self.field(key@) == Some(*j),
                None => self.field(key@) is None,
            },
    {
        match self {
            Json::Object(fields) => find_member(fields, key),
            _ => None,
        }
    }

    /// Whether this is an object.
    pub fn is_object(&self) -> (b: bool)
        ensures
            b == (self is Object),
    {
        matches!(self, Json::Object(_))
    }

    /// The text, where this is one.
    pub fn as_str(&self) -> (r: Option<&str>)
        ensures
            match r {
                Some(s) => self.text() == Some(s@),
                None => self.text() is None,
            },
    {
        match self {
            Json::Text(s) => Some(s.as_str()),
            _ => None,
        }
    }

    /// The value as a signed number of 64 bits.
    pub fn as_i64(&self) -> (n: Option<i64>)
        ensures
            n == self.signed(),
    {
        match self {
            Json::Number(n) => n.as_i64(),
            _ => None,
        }
    }

    /// The value as an unsigned number of 64 bits.
    pub fn as_u64(&self) -> (n: Option<u64>)
        ensures
            n == self.unsigned(),
    {
        match self {
            Json::Number(n) => n.as_u64(),
            _ => None,
        }
    }

    /// The truth value, where this is one.
    pub fn as_bool(&self) -> (b: Option<bool>)
        ensures
            b == self.truth(),
    {
        match self {
            Json::Bool(b) => Some(*b),
            _ => None,
        }
    }

    /// The text of that field, the empty text where there is none.
    pub open spec fn field_text(self, key: Seq<char>) -> Seq<char> {
        match self.field(key) {
            Some(j) => match j.text() {
                Some(s) => s,
                None => ""@,
            },
            None => ""@,
        }
    }

    /// The signed number of that field, `otherwise` where there is none.
    pub open spec fn field_signed(self, key: Seq<char>, otherwise: i64) -> i64 {
        match self.field(key) {
            Some(j) => match j.signed() {
                Some(n) => n,
                None => otherwise,
            },
            None => otherwise,
        }
    }

    /// The unsigned number of that field, zero where there is none.
    pub open spec fn field_unsigned(self, key: Seq<char>) -> u64 {
        match self.field(key) {
            Some(j) => match j.unsigned() {
                Some(n) => n,
                None => 0,
            },
            None => 0,
        }
    }

    /// The truth value of that field, false where there is none.
    pub open spec fn field_truth(self, key: Seq<char>) -> bool {
        match self.field(key) {
            Some(j) => j.truth() == Some(true),
            None => false,
        }
    }

    /// The text of that field, the empty text where there is none.
    pub fn get_text(&self, key: &str) -> (s: &str)
        ensures
            s@ == self.field_text(key@),
    {
        match self.get(key) {
            Some(j) => match j.as_str() {
                Some(s) => s,
                None => "",
            },
            None => "",
        }
    }

    /// The signed number of that field, `otherwise` where there is none.
    pub fn get_i64(&self, key: &str, otherwise: i64) -> (n: i64)
        ensures
            n == self.field_signed(key@, otherwise),
    {
        match self.get(key) {
            Some(j) => match j.as_i64() {
                Some(n) => n,
                None => otherwise,
            },
            None => otherwise,
        }
    }

    /// The unsigned number of that field, zero where there is none.
    pub fn get_u64(&self, key: &str) -> (n: u64)
        ensures
            n == self.field_unsigned(key@),
    {
        match self.get(key) {
            Some(j) => match j.as_u64() {
                Some(n) => n,
                None => 0,
            },
            None => 0,
        }
    }

    /// The truth value of that field, false where there is none.
    pub fn get_bool(&self, key: &str) -> (b: bool)
        ensures
            b == self.field_truth(key@),
    {
        match self.get(key) {
            Some(j) => match j.as_bool() {
                Some(b) => b,
                None => false,
            },
            None => false,
        }
    }
}

/// Why settings are refused: by their form, by what they ask for, or for
/// another reason.
#[derive(Debug, Clone, Copy, PartialEq, Eq, Structural)]
pub enum ErrorKind {
    InvalidData,
    InvalidInput,
    Other,
}

/// Settings that are refused.
#[derive(Debug, PartialEq, Eq)]
pub struct SettingsError {
    pub kind: ErrorKind,
    pub message: String,
}

/// What a refusal says.
pub ghost struct Refusal {
    pub kind: ErrorKind,
    pub message: Seq<char>,
}

impl View for SettingsError {
    type V = Refusal;

    open spec fn view(&self) -> Refusal {
        Refusal { kind: self.kind, message: self.message@ }
    }
}

/// Settings that have the wrong form.
pub open spec fn bad_data(message: Seq<char>) -> Refusal {
    Refusal { kind: ErrorKind::InvalidData, message }
}

/// Settings that ask for what there is not.
pub open spec fn bad_input(message: Seq<char>) -> Refusal {
    Refusal { kind: ErrorKind::InvalidInput, message }
}

impl SettingsError {
    /// Settings that have the wrong form.
    pub fn data(message: &str) -> (e: Self)
        ensures
            e@ == bad_data(message@),
    {
        SettingsError { kind: ErrorKind::InvalidData, message: message.to_owned() }
    }

    /// Settings that ask for what there is not.
    pub fn input(message: &str) -> (e: Self)
        ensures
            e@ == bad_input(message@),
    {
        SettingsError { kind: ErrorKind::InvalidInput, message: message.to_owned() }
    }

    /// Which sort of refusal this is.
    pub fn kind(&self) -> (k: ErrorKind)
        ensures
            k == self.kind,
    {
        self.kind
    }

    /// The refusal in words.
    pub fn message(&self) -> (s: String)
        ensures
            s@ == self.message@,
    {
        self.message.as_str().to_owned()
    }
}

/// The first field of a name counts: the value of a field is found where no
/// field before it has the same name.
pub proof fn law_first_member_counts(fields: Seq<(String, Json)>, i: int)
    requires
        0 <= i < fields.len(),
        forall|j: int| 0 <= j < i ==> (#[trigger] fields[j]).0@ != fields[i].0@,
    ensures
        member(fields, fields[i].0@) == Some(fields[i].1),
    decreases fields.len(),
{
    if i > 0 {
        let rest = fields.skip(1);
        assert(fields[0].0@ != fields[i].0@);
        assert forall|j: int| 0 <= j < i - 1 implies (#[trigger] rest[j]).0@ != rest[i - 1].0@ by {
            assert(fields[j + 1].0@ != fields[i].0@);
        }
        law_first_member_counts(rest, i - 1);
    }
}

/// There is no value for a name that no field has.
pub proof fn law_missing_member_has_no_value(fields: Seq<(String, Json)>, key: Seq<char>)
    requires
        forall|j: int| 0 <= j < fields.len() ==> (#[trigger] fields[j]).0@ != key,
    ensures
        member(fields, key) is None,
    decreases fields.len(),
{
    if fields.len() > 0 {
        let rest = fields.skip(1);
        assert(fields[0].0@ != key);
        assert forall|j: int| 0 <= j < rest.len() implies (#[trigger] rest[j]).0@ != key by {
            assert(fields[j + 1].0@ != key);
        }
        law_missing_member_has_no_value(rest, key);
    }
}

/// What a number is as a signed and as an unsigned one: itself where it fits,
/// and nothing where it does not or has a fraction.
pub proof fn law_numbers_that_fit(n: u64, m: i64)
    ensures
        Number::Unsigned(n).unsigned() == Some(n),
        n < 0x8000_0000_0000_0000 ==> (Number::Unsigned(n).signed() matches Some(x) && x == n),
        n >= 0x8000_0000_0000_0000 ==> Number::Unsigned(n).signed() is None,
        Number::Negative(m).signed() == Some(m),
        Number::Negative(m).unsigned() is None,
        Number::Fraction.signed() is None,
        Number::Fraction.unsigned() is None,
{
}

/// What a field gives: what it holds where that is of the right sort, and the
/// value for nothing where it is missing or of another sort.
pub proof fn law_field_values(obj: Json, key: Seq<char>, otherwise: i64)
    ensures
        obj.field(key) is None ==> {
            &&& obj.field_signed(key, otherwise) == otherwise
            &&& obj.field_unsigned(key) == 0
            &&& !obj.field_truth(key)
            &&& obj.field_text(key).len() == 0
        },
        obj.field(key) matches Some(Json::Text(s)) ==> {
            &&& obj.field_text(key) == s@
            &&& obj.field_signed(key, otherwise) == otherwise
            &&& obj.field_unsigned(key) == 0
        },
        obj.field(key) matches Some(Json::Bool(b)) ==> obj.field_truth(key) == b,
        obj.field(key) matches Some(Json::Number(Number::Unsigned(n))) ==> {
            &&& obj.field_unsigned(key) == n
            &&& n < 0x8000_0000_0000_0000 ==> obj.field_signed(key, otherwise) == n
        },
        obj.field(key) matches Some(Json::Number(Number::Negative(m))) ==> obj.field_signed(
            key,
            otherwise,
        ) == m,
{
    reveal_strlit("");
}

} // verus!
