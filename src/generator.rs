//! Drawing passwords from an alphabet.
use vstd::prelude::*;
use vstd::string::StrSliceExecFns;

use crate::strength::{entropy_bits, floor_log2, lemma_no_entropy, power};

verus! {

/// The password length of a generator made from a bare alphabet.
pub const DEFAULT_LENGTH: usize = 20;

/// Why no password could be drawn.
#[derive(Debug, Clone, Copy, PartialEq, Eq, Structural)]
pub enum GeneratorError {
    /// A character was to be drawn from an alphabet with none.
    EmptyAlphabet,
}

/// Draws passwords of a fixed length from an alphabet.
///
/// The alphabet is used as given: a character that occurs twice is drawn
/// twice as often.
#[derive(Debug)]
pub struct PasswordGenerator {
    charset: Vec<char>,
    length: usize,
}

/// Relies on `rand::Rng::gen_range` over `rand::thread_rng()`: a value of the
/// half-open range `0..bound`, which must not be empty.
#[verifier::external_body]
fn random_index(bound: usize) -> (r: usize)
    requires
        bound > 0,
    ensures
        r < bound,
{
    rand::Rng::gen_range(&mut rand::thread_rng(), 0..bound)
}

/// Relies on std's `FromIterator<&char>` for `String`: the string of the
/// characters in order.
#[verifier::external_body]
fn string_of(chars: &Vec<char>) -> (r: String)
    ensures
        r@ == chars@,
{
    chars.iter().collect()
}

/// Whether drawing one password of `length` characters from `alphabet` fails.
pub open spec fn draw_fails(alphabet: Seq<char>, length: nat) -> bool {
    alphabet.len() == 0 && length > 0
}

/// `pw` is a password of `length` characters, each from `alphabet`.
pub open spec fn is_password_of(pw: Seq<char>, alphabet: Seq<char>, length: nat) -> bool {
    &&& pw.len() == length
    &&& forall|i: int| 0 <= i < pw.len() ==> alphabet.contains(#[trigger] pw[i])
}

impl PasswordGenerator {
    /// The alphabet the characters are drawn from.
    pub closed spec fn alphabet(&self) -> Seq<char> {
        self.charset@
    }

    /// The length of each password.
    pub closed spec fn password_length(&self) -> nat {
        self.length as nat
    }

    /// The number of characters in the alphabet, repeats counted.
    pub fn charset_len(&self) -> (r: usize)
        ensures
            r == self.alphabet().len(),
    {
        self.charset.len()
    }

    /// The length of each password.
    pub fn password_len(&self) -> (r: usize)
        ensures
            r == self.password_length(),
    {
        self.length
    }

    /// A generator of passwords of `length` characters from `charset`, which
    /// is neither sorted nor deduplicated.
    pub fn new(charset: Vec<char>, length: usize) -> (r: Self)
        ensures
            r.alphabet() == charset@,
            r.password_length() == length,
    {
        PasswordGenerator { charset, length }
    }

    /// A generator of passwords of `DEFAULT_LENGTH` characters from `charset`.
    pub fn from_chars(charset: Vec<char>) -> (r: Self)
        ensures
            r.alphabet() == charset@,
            r.password_length() == DEFAULT_LENGTH,
    {
        PasswordGenerator::new(charset, DEFAULT_LENGTH)
    }

    /// A generator of passwords of `DEFAULT_LENGTH` characters whose alphabet
    /// is the characters of `text`, repeats included.
    pub fn from_text(text: &str) -> (r: Self)
        ensures
            r.alphabet() == text@,
            r.password_length() == DEFAULT_LENGTH,
    {
        let n = text.unicode_len();
        let mut charset: Vec<char> = Vec::new();
        let mut i: usize = 0;
        while i < n
            invariant
                n == text@.len(),
                i <= n,
                charset@ == text@.subrange(0, i as int),
            decreases n - i,
        {
            charset.push(text.get_char(i));
            i = i + 1;
            assert(charset@ =~= text@.subrange(0, i as int));
        }
        assert(text@.subrange(0, n as int) =~= text@);
        PasswordGenerator::new(charset, DEFAULT_LENGTH)
    }

    /// The same generator with passwords of `length` characters.
    pub fn length(self, length: usize) -> (r: Self)
        ensures
            r.alphabet() == self.alphabet(),
            r.password_length() == length,
    {
        PasswordGenerator { length, ..self }
    }

    /// The password whose `i`-th character is the alphabet's character at
    /// `picks[i]`.
    pub fn password_from_picks(&self, picks: &Vec<usize>) -> (r: String)
        requires
            forall|i: int| 0 <= i < picks@.len() ==> picks@[i] < self.alphabet().len(),
        ensures
            r@ == Seq::new(picks@.len(), |i: int| self.alphabet()[picks@[i] as int]),
    {
        let mut chars: Vec<char> = Vec::new();
        let mut i: usize = 0;
        while i < picks.len()
            invariant
                i <= picks@.len(),
                forall|k: int| 0 <= k < picks@.len() ==> picks@[k] < self.charset@.len(),
                chars@ == Seq::new(i as nat, |k: int| self.charset@[picks@[k] as int]),
            decreases picks@.len() - i,
        {
            chars.push(self.charset[picks[i]]);
            i = i + 1;
            assert(chars@ =~= Seq::new(i as nat, |k: int| self.charset@[picks@[k] as int]));
        }
        string_of(&chars)
    }

    /// One password: `password_length()` characters, each drawn uniformly
    /// and independently from the alphabet.
    pub fn generate(&self) -> (r: Result<String, GeneratorError>)
        ensures
            draw_fails(self.alphabet(), self.password_length()) ==> r == Err::<
                String,
                GeneratorError,
            >(GeneratorError::EmptyAlphabet),
            !draw_fails(self.alphabet(), self.password_length()) ==> r is Ok && is_password_of(
                r->Ok_0@,
                self.alphabet(),
                self.password_length(),
            ),
    {
        if self.charset.len() == 0 && self.length > 0 {
            return Err(GeneratorError::EmptyAlphabet);
        }
        let mut picks: Vec<usize> = Vec::new();
        let mut i: usize = 0;
        while i < self.length
            invariant
                i <= self.length,
                picks@.len() == i,
                self.length > 0 ==> self.charset@.len() > 0,
                forall|k: int| 0 <= k < picks@.len() ==> picks@[k] < self.charset@.len(),
            decreases self.length - i,
        {
            picks.push(random_index(self.charset.len()));
            i = i + 1;
        }
        let pw = self.password_from_picks(&picks);
        assert forall|k: int| 0 <= k < pw@.len() implies self.alphabet().contains(#[trigger] pw@[k]) by {
            assert(pw@[k] == self.charset@[picks@[k] as int]);
        }
        Ok(pw)
    }

    /// `count` passwords, each drawn as by `generate`; the same password may
    /// come more than once.
    pub fn generate_n(&self, count: usize) -> (r: Result<Vec<String>, GeneratorError>)
        ensures
            draw_fails(self.alphabet(), self.password_length()) ==> r == Err::<
                Vec<String>,
                GeneratorError,
            >(GeneratorError::EmptyAlphabet),
            !draw_fails(self.alphabet(), self.password_length()) ==> r is Ok && r->Ok_0@.len()
                == count && forall|i: int|
                0 <= i < count ==> is_password_of(
                    #[trigger] r->Ok_0@[i]@,
                    self.alphabet(),
                    self.password_length(),
                ),
    {
        if self.charset.len() == 0 && self.length > 0 {
            return Err(GeneratorError::EmptyAlphabet);
        }
        let mut out: Vec<String> = Vec::new();
        let mut i: usize = 0;
        while i < count
            invariant
                i <= count,
                !draw_fails(self.alphabet(), self.password_length()),
                out@.len() == i,
                forall|k: int|
                    0 <= k < i ==> is_password_of(
                        #[trigger] out@[k]@,
                        self.alphabet(),
                        self.password_length(),
                    ),
            decreases count - i,
        {
            match self.generate() {
                Ok(pw) => out.push(pw),
                Err(e) => return Err(e),
            }
            i = i + 1;
        }
        Ok(out)
    }

    /// The entropy of one password in bits: `floor(log2(k^n))` for an
    /// alphabet of `k` characters and passwords of `n`; `0` when `k` is `1`
    /// or `n` is `0`.
    pub fn entropy(&self) -> (r: usize)
        ensures
            r == floor_log2(power(self.alphabet().len(), self.password_length())),
            self.alphabet().len() == 1 || self.password_length() == 0 ==> r == 0,
    {
        proof {
            if self.alphabet().len() == 1 || self.password_length() == 0 {
                lemma_no_entropy(self.alphabet().len(), self.password_length());
            }
        }
        entropy_bits(self.charset.len(), self.length)
    }
}

impl From<Vec<char>> for PasswordGenerator {
    fn from(charset: Vec<char>) -> (r: PasswordGenerator) {
        PasswordGenerator { charset, length: DEFAULT_LENGTH }
    }
}

impl vstd::std_specs::convert::FromSpecImpl<Vec<char>> for PasswordGenerator {
    open spec fn obeys_from_spec() -> bool {
        true
    }

    closed spec fn from_spec(v: Vec<char>) -> PasswordGenerator {
        PasswordGenerator { charset: v, length: DEFAULT_LENGTH }
    }
}

impl<'a> From<&'a str> for PasswordGenerator {
    fn from(text: &'a str) -> (r: PasswordGenerator) {
        PasswordGenerator::from_text(text)
    }
}

/// What the conversion from text yields is stated by `from_text`, not here.
impl<'a> vstd::std_specs::convert::FromSpecImpl<&'a str> for PasswordGenerator {
    open spec fn obeys_from_spec() -> bool {
        false
    }

    closed spec fn from_spec(v: &'a str) -> PasswordGenerator {
        PasswordGenerator { charset: arbitrary(), length: DEFAULT_LENGTH }
    }
}

} // verus!
