//! Validated text types: entity keys and localized display names.

use vstd::prelude::*;

use crate::strings::{
    all_white_space, chars_all_white_space, char_is_white_space, has_edge_white_space,
    is_white_space, str_chars, str_eq, string_of, trim_chars,
};

verus! {

/// Why a text was refused as a [`Key`].
#[derive(Debug, Clone, Copy, PartialEq, Eq, Structural)]
pub enum KeyValidationError {
    /// The text is empty or only white space.
    Blank,
    /// The text starts or ends with white space.
    LeadingOrTrailingSpaces,
}

impl KeyValidationError {
    /// The message that describes this error.
    pub fn message(&self) -> (s: String)
        ensures
            s@ == self.spec_message(),
    {
        match self {
            KeyValidationError::Blank => string_of("key must not be blank"),
            KeyValidationError::LeadingOrTrailingSpaces => string_of(
                "Key must not have leading/trailing spaces",
            ),
        }
    }

    pub open spec fn spec_message(&self) -> Seq<char> {
        match self {
            KeyValidationError::Blank => "key must not be blank"@,
            KeyValidationError::LeadingOrTrailingSpaces => "Key must not have leading/trailing spaces"@,
        }
    }
}

/// Why a text was refused as a [`DisplayName`].
#[derive(Debug, Clone, Copy, PartialEq, Eq, Structural)]
pub enum DisplayNameValidationError {
    /// The text is empty or only white space.
    Blank,
}

impl DisplayNameValidationError {
    /// The message that describes this error.
    pub fn message(&self) -> (s: String)
        ensures
            s@ == "must not be blank"@,
    {
        string_of("must not be blank")
    }
}

/// What [`Key::try_from`] decides for a text.
pub open spec fn key_check(s: Seq<char>) -> Result<(), KeyValidationError> {
    if all_white_space(s) {
        Err(KeyValidationError::Blank)
    } else if has_edge_white_space(s) {
        Err(KeyValidationError::LeadingOrTrailingSpaces)
    } else {
        Ok(())
    }
}

/// A text is a valid key: not blank, no white space at either end.
pub open spec fn is_valid_key(s: Seq<char>) -> bool {
    key_check(s) is Ok
}

/// A text is a valid display name: not blank.
pub open spec fn is_valid_display_name(s: Seq<char>) -> bool {
    !all_white_space(s)
}

/// Stable key used by model entities: non-blank, with no white space at
/// either end.
#[derive(Debug, Hash, Eq, PartialOrd, Ord)]
pub struct Key(String);

impl View for Key {
    type V = Seq<char>;

    closed spec fn view(&self) -> Seq<char> {
        self.0@
    }
}

/// A text is accepted as a key exactly when it has a character that is not
/// white space and neither its first nor its last character is white
/// space; an accepted key is its own trim. A text with some other character
/// but white space at either end is refused for that, not as blank.
pub proof fn law_key_edges(s: Seq<char>)
    ensures
        key_check(s) is Ok <==> ((exists|i: int| 0 <= i < s.len() && !is_white_space(#[trigger] s[i])) && !is_white_space(s[0])
            && !is_white_space(s[s.len() - 1])),
        key_check(s) is Ok ==> trim_chars(s) == s,
        (exists|i: int| 0 <= i < s.len() && !is_white_space(#[trigger] s[i])) && (is_white_space(s[0]) || is_white_space(
            s[s.len() - 1],
        )) ==> key_check(s) == Err::<(), KeyValidationError>(KeyValidationError::LeadingOrTrailingSpaces),
        (forall|i: int| 0 <= i < s.len() ==> is_white_space(#[trigger] s[i])) ==> key_check(s) == Err::<
            (),
            KeyValidationError,
        >(KeyValidationError::Blank),
{
    if key_check(s) is Ok {
        assert(!all_white_space(s));
        assert(s.len() > 0);
        assert(s.last() == s[s.len() - 1]);
    }
}

/// Decides whether a text is a valid key.
fn check_key(value: &str) -> (r: Result<(), KeyValidationError>)
    ensures
        r == key_check(value@),
{
    let cs = str_chars(value);
    if chars_all_white_space(&cs) {
        return Err(KeyValidationError::Blank);
    }
    let n = cs.len();
    if char_is_white_space(cs[0]) || char_is_white_space(cs[n - 1]) {
        return Err(KeyValidationError::LeadingOrTrailingSpaces);
    }
    Ok(())
}

impl Key {
    /// The key as a string slice.
    pub fn as_str(&self) -> (s: &str)
        ensures
            s@ == self@,
    {
        self.0.as_str()
    }

    /// The key as an owned string.
    pub fn into_string(self) -> (s: String)
        ensures
            s@ == self@,
    {
        self.0
    }

    /// Validates an owned text as a key: refused when blank, or when it has
    /// leading or trailing white space.
    pub fn try_from_string(value: String) -> (r: Result<Key, KeyValidationError>)
        ensures
            match r {
                Ok(k) => key_check(value@) is Ok && k@ == value@,
                Err(e) => key_check(value@) == Err::<(), KeyValidationError>(e),
            },
            r matches Ok(k) ==> k@.len() > 0 && !is_white_space(k@[0]) && !is_white_space(k@[k@.len() - 1]),
    {
        proof {
            law_key_edges(value@);
        }
        match check_key(value.as_str()) {
            Ok(()) => Ok(Key(value)),
            Err(e) => Err(e),
        }
    }

    /// Validates a string slice as a key (see [`Key::try_from_string`]).
    pub fn try_from_str(value: &str) -> (r: Result<Key, KeyValidationError>)
        ensures
            match r {
                Ok(k) => key_check(value@) is Ok && k@ == value@,
                Err(e) => key_check(value@) == Err::<(), KeyValidationError>(e),
            },
            r matches Ok(k) ==> k@.len() > 0 && !is_white_space(k@[0]) && !is_white_space(k@[k@.len() - 1]),
    {
        Key::try_from_string(string_of(value))
    }

    /// A copy of this key.
    pub fn duplicate(&self) -> (k: Key)
        ensures
            k@ == self@,
    {
        Key(self.0.clone())
    }

    /// Whether this key equals the text `s`.
    pub fn matches(&self, s: &str) -> (b: bool)
        ensures
            b == (self@ == s@),
    {
        str_eq(self.0.as_str(), s)
    }
}

impl<'a> TryFrom<&'a str> for Key {
    type Error = KeyValidationError;

    /// Validates a string slice as a key (see [`Key::try_from_string`]).
    fn try_from(value: &'a str) -> (r: Result<Key, KeyValidationError>)
        ensures
            match r {
                Ok(k) => key_check(value@) is Ok && k@ == value@,
                Err(e) => key_check(value@) == Err::<(), KeyValidationError>(e),
            },
    {
        Key::try_from_str(value)
    }
}

impl TryFrom<String> for Key {
    type Error = KeyValidationError;

    /// Validates an owned text as a key (see [`Key::try_from_string`]).
    fn try_from(value: String) -> (r: Result<Key, KeyValidationError>)
        ensures
            match r {
                Ok(k) => key_check(value@) is Ok && k@ == value@,
                Err(e) => key_check(value@) == Err::<(), KeyValidationError>(e),
            },
    {
        match check_key(value.as_str()) {
            Ok(()) => Ok(Key(value)),
            Err(e) => Err(e),
        }
    }
}

impl<'a> vstd::std_specs::convert::TryFromSpecImpl<&'a str> for Key {
    /// A `Key` built from a slice holds a fresh string, which no spec
    /// expression can name; the impl's own `ensures` states the result.
    open spec fn obeys_try_from_spec() -> bool {
        false
    }

    open spec fn try_from_spec(v: &'a str) -> Result<Key, KeyValidationError> {
        Err(KeyValidationError::Blank)
    }
}

impl vstd::std_specs::convert::TryFromSpecImpl<String> for Key {
    open spec fn obeys_try_from_spec() -> bool {
        true
    }

    closed spec fn try_from_spec(v: String) -> Result<Key, KeyValidationError> {
        match key_check(v@) {
            Ok(()) => Ok(Key(v)),
            Err(e) => Err(e),
        }
    }
}

impl Clone for Key {
    fn clone(&self) -> (k: Self)
        ensures
            k@ == self@,
    {
        Key(self.0.clone())
    }
}

impl PartialEq for Key {
    fn eq(&self, other: &Self) -> (r: bool) {
        self.0 == other.0
    }
}

impl vstd::std_specs::cmp::PartialEqSpecImpl for Key {
    open spec fn obeys_eq_spec() -> bool {
        true
    }

    open spec fn eq_spec(&self, other: &Self) -> bool {
        self@ == other@
    }
}

/// Non-empty localized display name used by model entities.
#[derive(Debug, Hash, Eq, PartialOrd, Ord)]
pub struct DisplayName(String);

impl View for DisplayName {
    type V = Seq<char>;

    closed spec fn view(&self) -> Seq<char> {
        self.0@
    }
}

impl DisplayName {
    /// The name as a string slice.
    pub fn as_str(&self) -> (s: &str)
        ensures
            s@ == self@,
    {
        self.0.as_str()
    }

    /// The name as an owned string.
    pub fn into_string(self) -> (s: String)
        ensures
            s@ == self@,
    {
        self.0
    }

    /// Validates an owned text as a display name: refused when blank (empty
    /// or only white space). White space at the ends is kept.
    pub fn try_from_string(value: String) -> (r: Result<DisplayName, DisplayNameValidationError>)
        ensures
            match r {
                Ok(d) => !all_white_space(value@) && d@ == value@,
                Err(e) => all_white_space(value@) && e == DisplayNameValidationError::Blank,
            },
    {
        let cs = str_chars(value.as_str());
        if chars_all_white_space(&cs) {
            Err(DisplayNameValidationError::Blank)
        } else {
            Ok(DisplayName(value))
        }
    }

    /// Validates a string slice as a display name (see
    /// [`DisplayName::try_from_string`]).
    pub fn try_from_str(value: &str) -> (r: Result<DisplayName, DisplayNameValidationError>)
        ensures
            match r {
                Ok(d) => !all_white_space(value@) && d@ == value@,
                Err(e) => all_white_space(value@) && e == DisplayNameValidationError::Blank,
            },
    {
        DisplayName::try_from_string(string_of(value))
    }
}

impl<'a> TryFrom<&'a str> for DisplayName {
    type Error = DisplayNameValidationError;

    /// Validates a string slice as a display name (see
    /// [`DisplayName::try_from_string`]).
    fn try_from(value: &'a str) -> (r: Result<DisplayName, DisplayNameValidationError>)
        ensures
            match r {
                Ok(d) => !all_white_space(value@) && d@ == value@,
                Err(e) => all_white_space(value@) && e == DisplayNameValidationError::Blank,
            },
    {
        DisplayName::try_from_str(value)
    }
}

impl TryFrom<String> for DisplayName {
    type Error = DisplayNameValidationError;

    /// Validates an owned text as a display name (see
    /// [`DisplayName::try_from_string`]).
    fn try_from(value: String) -> (r: Result<DisplayName, DisplayNameValidationError>)
        ensures
            match r {
                Ok(d) => !all_white_space(value@) && d@ == value@,
                Err(e) => all_white_space(value@) && e == DisplayNameValidationError::Blank,
            },
    {
        let cs = str_chars(value.as_str());
        if chars_all_white_space(&cs) {
            Err(DisplayNameValidationError::Blank)
        } else {
            Ok(DisplayName(value))
        }
    }
}

impl<'a> vstd::std_specs::convert::TryFromSpecImpl<&'a str> for DisplayName {
    /// A `DisplayName` built from a slice holds a fresh string, which no spec
    /// expression can name; the impl's own `ensures` states the result.
    open spec fn obeys_try_from_spec() -> bool {
        false
    }

    open spec fn try_from_spec(v: &'a str) -> Result<DisplayName, DisplayNameValidationError> {
        Err(DisplayNameValidationError::Blank)
    }
}

impl vstd::std_specs::convert::TryFromSpecImpl<String> for DisplayName {
    open spec fn obeys_try_from_spec() -> bool {
        true
    }

    closed spec fn try_from_spec(v: String) -> Result<DisplayName, DisplayNameValidationError> {
        if all_white_space(v@) {
            Err(DisplayNameValidationError::Blank)
        } else {
            Ok(DisplayName(v))
        }
    }
}

impl Clone for DisplayName {
    fn clone(&self) -> (d: Self)
        ensures
            d@ == self@,
    {
        DisplayName(self.0.clone())
    }
}

impl PartialEq for DisplayName {
    fn eq(&self, other: &Self) -> (r: bool) {
        self.0 == other.0
    }
}

impl vstd::std_specs::cmp::PartialEqSpecImpl for DisplayName {
    open spec fn obeys_eq_spec() -> bool {
        true
    }

    open spec fn eq_spec(&self, other: &Self) -> bool {
        self@ == other@
    }
}

} // verus!
