//! People: team members, resources and stakeholders of a project.

use email_address::EmailAddress;
use phonenumber::PhoneNumber;
use vstd::prelude::*;
use vstd::string::{StrSliceExecFns, StringExecFns};

verus! {

/// The largest number of characters in a name.
pub const NAME_LEN: usize = 50;

/// `email_address::EmailAddress`: a checked e-mail address. The library
/// stores it and hands it back, and never looks inside.
#[verifier::external_type_specification]
#[verifier::external_body]
pub struct ExEmailAddress(EmailAddress);

/// `phonenumber::PhoneNumber`: a parsed phone number. The library stores it
/// and hands it back, and never looks inside.
#[verifier::external_type_specification]
#[verifier::external_body]
pub struct ExPhoneNumber(PhoneNumber);

/// Whether `c` is white space: one of the characters that Unicode gives the
/// property `White_Space`.
pub open spec fn is_whitespace(c: char) -> bool {
    ||| '\u{9}' <= c && c <= '\u{d}'
    ||| c == ' '
    ||| c == '\u{85}'
    ||| c == '\u{a0}'
    ||| c == '\u{1680}'
    ||| '\u{2000}' <= c && c <= '\u{200a}'
    ||| c == '\u{2028}'
    ||| c == '\u{2029}'
    ||| c == '\u{202f}'
    ||| c == '\u{205f}'
    ||| c == '\u{3000}'
}

/// `s` without the white space at its start and at its end.
pub open spec fn trimmed(s: Seq<char>) -> Seq<char>
    decreases s.len(),
{
    if s.len() == 0 {
        s
    } else if is_whitespace(s[0]) {
        trimmed(s.drop_first())
    } else if is_whitespace(s[s.len() - 1]) {
        trimmed(s.drop_last())
    } else {
        s
    }
}

/// A text that can stand as a name: not empty, at most `NAME_LEN`
/// characters, without white space at either end.
pub open spec fn is_name(s: Seq<char>) -> bool {
    &&& 1 <= s.len() <= NAME_LEN
    &&& !is_whitespace(s[0])
    &&& !is_whitespace(s[s.len() - 1])
}

/// What `NameString::try_new` makes of a text.
pub open spec fn name_of_text(s: Seq<char>) -> Result<Seq<char>, NameStringError> {
    if trimmed(s).len() == 0 {
        Err(NameStringError::NotEmptyViolated)
    } else if trimmed(s).len() > NAME_LEN {
        Err(NameStringError::LenCharMaxViolated)
    } else {
        Ok(trimmed(s))
    }
}

/// Trimming leaves a text that is empty or has no white space at either end.
pub proof fn lemma_trimmed_has_no_margin(s: Seq<char>)
    ensures
        trimmed(s).len() <= s.len(),
        trimmed(s).len() > 0 ==> !is_whitespace(trimmed(s)[0]) && !is_whitespace(
            trimmed(s)[trimmed(s).len() - 1],
        ),
    decreases s.len(),
{
    if s.len() == 0 {
    } else if is_whitespace(s[0]) {
        lemma_trimmed_has_no_margin(s.drop_first());
    } else if is_whitespace(s[s.len() - 1]) {
        lemma_trimmed_has_no_margin(s.drop_last());
    }
}

/// A text that is accepted as a name is kept as it stands once trimmed, and
/// trimming a name changes nothing.
pub proof fn lemma_name_of_text_is_name(s: Seq<char>)
    ensures
        name_of_text(s) matches Ok(name) ==> is_name(name) && trimmed(name) == name,
{
    lemma_trimmed_has_no_margin(s);
}

/// `str::trim`: the text without its leading and trailing white space.
#[verifier::external_body]
fn str_trim(s: &str) -> (r: &str)
    ensures
        r@ == trimmed(s@),
{
    s.trim()
}

/// Why a text cannot stand as a name.
#[derive(Debug, Clone, Copy, PartialEq, Eq, Structural)]
pub enum NameStringError {
    /// The text is empty once the white space around it is taken off.
    NotEmptyViolated,
    /// The text has more than `NAME_LEN` characters.
    LenCharMaxViolated,
}

impl NameStringError {
    /// A sentence that says what went wrong.
    pub fn message(&self) -> (r: &'static str)
        ensures
            r@ == match self {
                NameStringError::NotEmptyViolated => "A name cannot be empty"@,
                NameStringError::LenCharMaxViolated => "A name cannot have more than 50 characters"@,
            },
    {
        match self {
            NameStringError::NotEmptyViolated => "A name cannot be empty",
            NameStringError::LenCharMaxViolated => "A name cannot have more than 50 characters",
        }
    }
}

/// A name: a text that is not empty, has no white space at either end and at
/// most `NAME_LEN` characters.
#[derive(Debug, PartialEq, Eq)]
pub struct NameString {
    value: String,
}

impl View for NameString {
    type V = Seq<char>;

    closed spec fn view(&self) -> Seq<char> {
        self.value@
    }
}

impl NameString {
    #[verifier::type_invariant]
    spec fn valid(self) -> bool {
        is_name(self.value@)
    }

    /// Takes the white space off both ends of `name` and keeps what is left
    /// as a name, unless that is empty or longer than `NAME_LEN` characters.
    pub fn try_new(name: String) -> (r: Result<Self, NameStringError>)
        ensures
            match r {
                Ok(n) => name_of_text(name@) == Ok::<Seq<char>, NameStringError>(n@),
                Err(e) => name_of_text(name@) == Err::<Seq<char>, NameStringError>(e),
            },
    {
        let sanitized = str_trim(name.as_str());
        let len = sanitized.unicode_len();
        if len == 0 {
            Err(NameStringError::NotEmptyViolated)
        } else if len > NAME_LEN {
            Err(NameStringError::LenCharMaxViolated)
        } else {
            proof {
                lemma_trimmed_has_no_margin(name@);
            }
            Ok(NameString { value: String::from_str(sanitized) })
        }
    }

    /// The name as text.
    pub fn as_str(&self) -> (r: &str)
        ensures
            r@ == self@,
            is_name(r@),
    {
        proof {
            use_type_invariant(self);
        }
        self.value.as_str()
    }

    /// Gives up the name for its text.
    pub fn into_inner(self) -> (r: String)
        ensures
            r@ == self@,
            is_name(r@),
    {
        proof {
            use_type_invariant(&self);
        }
        self.value
    }
}

impl Clone for NameString {
    fn clone(&self) -> (r: Self)
        ensures
            r@ == self@,
    {
        proof {
            use_type_invariant(self);
        }
        NameString { value: self.value.clone() }
    }
}

/// A person with a name and contact information.
#[derive(Debug, Clone, PartialEq, Eq)]
pub struct Person {
    /// The first name of the person.
    first_name: NameString,
    /// The last name of the person.
    last_name: NameString,
    /// The email address of the person.
    email: Option<EmailAddress>,
    /// The phone number of the person.
    phone: Option<PhoneNumber>,
}

/// What a person holds.
pub struct PersonView {
    pub first_name: Seq<char>,
    pub last_name: Seq<char>,
    pub email: Option<EmailAddress>,
    pub phone: Option<PhoneNumber>,
}

impl View for Person {
    type V = PersonView;

    closed spec fn view(&self) -> PersonView {
        PersonView {
            first_name: self.first_name@,
            last_name: self.last_name@,
            email: self.email,
            phone: self.phone,
        }
    }
}

impl Person {
    /// Creates a person with the given first name and surname and no contact
    /// information, or `None` where one of the two cannot stand as a name.
    pub fn new(name: String, surname: String) -> (r: Option<Self>)
        ensures
            r is Some <==> name_of_text(name@) is Ok && name_of_text(surname@) is Ok,
            r matches Some(p) ==> p@ == (PersonView {
                first_name: trimmed(name@),
                last_name: trimmed(surname@),
                email: None,
                phone: None,
            }),
    {
        match (NameString::try_new(name), NameString::try_new(surname)) {
            (Ok(n), Ok(s)) => Some(Person { first_name: n, last_name: s, email: None, phone: None }),
            _ => None,
        }
    }

    /// Adds or replaces the email address of the person.
    pub fn update_email(&mut self, email: EmailAddress)
        ensures
            final(self)@ == (PersonView { email: Some(email), ..old(self)@ }),
    {
        self.email = Some(email);
    }

    /// Removes the email address of the person.
    pub fn rm_email(&mut self)
        ensures
            final(self)@ == (PersonView { email: None, ..old(self)@ }),
    {
        self.email = None;
    }

    /// Adds or replaces the phone number of the person.
    pub fn update_phone(&mut self, phone: PhoneNumber)
        ensures
            final(self)@ == (PersonView { phone: Some(phone), ..old(self)@ }),
    {
        self.phone = Some(phone);
    }

    /// Removes the phone number of the person.
    pub fn rm_phone(&mut self)
        ensures
            final(self)@ == (PersonView { phone: None, ..old(self)@ }),
    {
        self.phone = None;
    }

    /// The phone number of the person.
    pub fn phone(&self) -> (r: &Option<PhoneNumber>)
        ensures
            *r == self@.phone,
    {
        &self.phone
    }

    /// The email address of the person.
    pub fn email(&self) -> (r: &Option<EmailAddress>)
        ensures
            *r == self@.email,
    {
        &self.email
    }

    /// The first name and the last name, with one space between them.
    pub fn full_name(&self) -> (r: String)
        ensures
            r@ == self@.first_name + seq![' '] + self@.last_name,
    {
        let mut full = String::from_str(self.first_name.as_str());
        proof {
            reveal_strlit(" ");
            assert(" "@ == seq![' ']);
        }
        full.append(" ");
        full.append(self.last_name.as_str());
        full
    }

    /// The first name of the person.
    pub fn first_name(&self) -> (r: &str)
        ensures
            r@ == self@.first_name,
            is_name(r@),
    {
        self.first_name.as_str()
    }

    /// Replaces the first name of the person, unless `name` cannot stand as
    /// a name; the person is then left as it was.
    pub fn update_first_name(&mut self, name: String) -> (r: Result<(), NameStringError>)
        ensures
            match r {
                Ok(()) => name_of_text(name@) is Ok && final(self)@ == (PersonView {
                    first_name: trimmed(name@),
                    ..old(self)@
                }),
                Err(e) => name_of_text(name@) == Err::<Seq<char>, NameStringError>(e) && *final(self)
                    == *old(self),
            },
    {
        match NameString::try_new(name) {
            Ok(n) => {
                self.first_name = n;
                Ok(())
            },
            Err(e) => Err(e),
        }
    }

    /// The last name of the person.
    pub fn last_name(&self) -> (r: &str)
        ensures
            r@ == self@.last_name,
            is_name(r@),
    {
        self.last_name.as_str()
    }

    /// Replaces the last name of the person, unless `name` cannot stand as a
    /// name; the person is then left as it was.
    pub fn update_last_name(&mut self, name: String) -> (r: Result<(), NameStringError>)
        ensures
            match r {
                Ok(()) => name_of_text(name@) is Ok && final(self)@ == (PersonView {
                    last_name: trimmed(name@),
                    ..old(self)@
                }),
                Err(e) => name_of_text(name@) == Err::<Seq<char>, NameStringError>(e) && *final(self)
                    == *old(self),
            },
    {
        match NameString::try_new(name) {
            Ok(n) => {
                self.last_name = n;
                Ok(())
            },
            Err(e) => Err(e),
        }
    }
}

} // verus!
