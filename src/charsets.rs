//! Character groups, their names, and the specification that composes them
//! into an alphabet.
use vstd::prelude::*;
use vstd::string::StrSliceExecFns;
use vstd::utf8::char_u32_cast;

verus! {

/// Lower-case latin letters, `a` to `z`.
pub open spec fn alpha_lower_group() -> Seq<char> {
    seq!['a', 'b', 'c', 'd', 'e', 'f', 'g', 'h', 'i', 'j', 'k', 'l', 'm', 'n', 'o', 'p', 'q', 'r', 's', 't', 'u', 'v', 'w', 'x', 'y', 'z']
}

/// Lower-case latin letters, `a` to `z`.
pub fn charset_alpha_lower() -> (r: Vec<char>)
    ensures
        r@ == alpha_lower_group(),
{
    let r = vec!['a', 'b', 'c', 'd', 'e', 'f', 'g', 'h', 'i', 'j', 'k', 'l', 'm', 'n', 'o', 'p', 'q', 'r', 's', 't', 'u', 'v', 'w', 'x', 'y', 'z'];
    assert(r@ =~= alpha_lower_group());
    r
}

/// Upper-case latin letters, `A` to `Z`.
pub open spec fn alpha_upper_group() -> Seq<char> {
    seq!['A', 'B', 'C', 'D', 'E', 'F', 'G', 'H', 'I', 'J', 'K', 'L', 'M', 'N', 'O', 'P', 'Q', 'R', 'S', 'T', 'U', 'V', 'W', 'X', 'Y', 'Z']
}

/// Upper-case latin letters, `A` to `Z`.
pub fn charset_alpha_upper() -> (r: Vec<char>)
    ensures
        r@ == alpha_upper_group(),
{
    let r = vec!['A', 'B', 'C', 'D', 'E', 'F', 'G', 'H', 'I', 'J', 'K', 'L', 'M', 'N', 'O', 'P', 'Q', 'R', 'S', 'T', 'U', 'V', 'W', 'X', 'Y', 'Z'];
    assert(r@ =~= alpha_upper_group());
    r
}

/// The decimal digits.
pub open spec fn numeric_group() -> Seq<char> {
    seq!['0', '1', '2', '3', '4', '5', '6', '7', '8', '9']
}

/// The decimal digits.
pub fn charset_numeric() -> (r: Vec<char>)
    ensures
        r@ == numeric_group(),
{
    let r = vec!['0', '1', '2', '3', '4', '5', '6', '7', '8', '9'];
    assert(r@ =~= numeric_group());
    r
}

/// Prose punctuation: `.`, `:`, `,`, `;`, `!`, `?`, blank and both quotes.
pub open spec fn prose_group() -> Seq<char> {
    seq!['.', ':', ',', ';', '!', '?', ' ', '\'', '"']
}

/// Prose punctuation: `.`, `:`, `,`, `;`, `!`, `?`, blank and both quotes.
pub fn charset_prose() -> (r: Vec<char>)
    ensures
        r@ == prose_group(),
{
    let r = vec!['.', ':', ',', ';', '!', '?', ' ', '\'', '"'];
    assert(r@ =~= prose_group());
    r
}

/// Math operators: `+`, `-`, `*`, `/`, `=`, `<`, `>`.
pub open spec fn mathops_group() -> Seq<char> {
    seq!['+', '-', '*', '/', '=', '<', '>']
}

/// Math operators: `+`, `-`, `*`, `/`, `=`, `<`, `>`.
pub fn charset_mathops() -> (r: Vec<char>)
    ensures
        r@ == mathops_group(),
{
    let r = vec!['+', '-', '*', '/', '=', '<', '>'];
    assert(r@ =~= mathops_group());
    r
}

/// Delimiters: parentheses, brackets and braces.
pub open spec fn delim_group() -> Seq<char> {
    seq!['(', ')', '[', ']', '{', '}']
}

/// Delimiters: parentheses, brackets and braces.
pub fn charset_delim() -> (r: Vec<char>)
    ensures
        r@ == delim_group(),
{
    let r = vec!['(', ')', '[', ']', '{', '}'];
    assert(r@ =~= delim_group());
    r
}

/// Other symbols: `#`, `@`, `$`, `%`, `&`, `|`, backslash, `~`, `^`, `_`, backtick.
pub open spec fn misc_special_group() -> Seq<char> {
    seq!['#', '@', '$', '%', '&', '|', '\\', '~', '^', '_', '`']
}

/// Other symbols: `#`, `@`, `$`, `%`, `&`, `|`, backslash, `~`, `^`, `_`, backtick.
pub fn charset_misc_special() -> (r: Vec<char>)
    ensures
        r@ == misc_special_group(),
{
    let r = vec!['#', '@', '$', '%', '&', '|', '\\', '~', '^', '_', '`'];
    assert(r@ =~= misc_special_group());
    r
}

/// Names a character group: one of the seven atomic groups, or a compound
/// name that stands for several of them.
#[derive(Debug, Clone, Copy, PartialEq, Eq, Structural)]
pub enum CharsetName {
    AlphaLower,
    AlphaUpper,
    Numeric,
    Mathops,
    Prose,
    Delim,
    MiscSpecial,
    /// Both letter groups.
    Alpha,
    /// Math operators, prose punctuation, delimiters and other symbols.
    Special,
}

/// Why an encoded specification was refused.
#[derive(Debug, Clone, Copy, PartialEq, Eq, Structural)]
pub enum CharsetError {
    /// The symbol names no character group.
    InvalidInput(char),
}

/// The name that a specification symbol stands for, if any.
pub open spec fn name_of_symbol(c: char) -> Option<CharsetName> {
    if c == 'U' {
        Some(CharsetName::AlphaUpper)
    } else if c == 'L' {
        Some(CharsetName::AlphaLower)
    } else if c == 'N' {
        Some(CharsetName::Numeric)
    } else if c == 'M' {
        Some(CharsetName::Mathops)
    } else if c == 'P' {
        Some(CharsetName::Prose)
    } else if c == 'D' {
        Some(CharsetName::Delim)
    } else if c == 'X' {
        Some(CharsetName::MiscSpecial)
    } else if c == 'A' {
        Some(CharsetName::Alpha)
    } else if c == 'S' {
        Some(CharsetName::Special)
    } else {
        None
    }
}

impl CharsetName {
    /// Resolves one specification symbol to the name it stands for.
    pub fn try_from(c: char) -> (r: Result<CharsetName, CharsetError>)
        ensures
            r == (match name_of_symbol(c) {
                Some(n) => Ok(n),
                None => Err(CharsetError::InvalidInput(c)),
            }),
    {
        match c {
            'U' => Ok(CharsetName::AlphaUpper),
            'L' => Ok(CharsetName::AlphaLower),
            'N' => Ok(CharsetName::Numeric),
            'M' => Ok(CharsetName::Mathops),
            'P' => Ok(CharsetName::Prose),
            'D' => Ok(CharsetName::Delim),
            'X' => Ok(CharsetName::MiscSpecial),
            'A' => Ok(CharsetName::Alpha),
            'S' => Ok(CharsetName::Special),
            _ => Err(CharsetError::InvalidInput(c)),
        }
    }
}

/// The abstract state of a `CharsetSpec`: one flag per atomic group, and
/// the characters added one by one, in the order they were added.
pub struct SpecModel {
    pub alpha_lower: bool,
    pub alpha_upper: bool,
    pub numeric: bool,
    pub mathops: bool,
    pub prose: bool,
    pub delim: bool,
    pub misc_special: bool,
    pub additions: Seq<char>,
}

/// The state after applying a name: the flags of its groups are set.
pub open spec fn model_add(m: SpecModel, n: CharsetName) -> SpecModel {
    match n {
        CharsetName::AlphaLower => SpecModel { alpha_lower: true, ..m },
        CharsetName::AlphaUpper => SpecModel { alpha_upper: true, ..m },
        CharsetName::Numeric => SpecModel { numeric: true, ..m },
        CharsetName::Mathops => SpecModel { mathops: true, ..m },
        CharsetName::Prose => SpecModel { prose: true, ..m },
        CharsetName::Delim => SpecModel { delim: true, ..m },
        CharsetName::MiscSpecial => SpecModel { misc_special: true, ..m },
        CharsetName::Alpha => SpecModel { alpha_lower: true, alpha_upper: true, ..m },
        CharsetName::Special => SpecModel {
            mathops: true,
            prose: true,
            delim: true,
            misc_special: true,
            ..m
        },
    }
}

/// The state after removing a name: the flags of its groups are cleared,
/// however they were set.
pub open spec fn model_remove(m: SpecModel, n: CharsetName) -> SpecModel {
    match n {
        CharsetName::AlphaLower => SpecModel { alpha_lower: false, ..m },
        CharsetName::AlphaUpper => SpecModel { alpha_upper: false, ..m },
        CharsetName::Numeric => SpecModel { numeric: false, ..m },
        CharsetName::Mathops => SpecModel { mathops: false, ..m },
        CharsetName::Prose => SpecModel { prose: false, ..m },
        CharsetName::Delim => SpecModel { delim: false, ..m },
        CharsetName::MiscSpecial => SpecModel { misc_special: false, ..m },
        CharsetName::Alpha => SpecModel { alpha_lower: false, alpha_upper: false, ..m },
        CharsetName::Special => SpecModel {
            mathops: false,
            prose: false,
            delim: false,
            misc_special: false,
            ..m
        },
    }
}

/// The model of a specification with no group and no character.
pub open spec fn model_empty() -> SpecModel {
    SpecModel {
        alpha_lower: false,
        alpha_upper: false,
        numeric: false,
        mathops: false,
        prose: false,
        delim: false,
        misc_special: false,
        additions: Seq::empty(),
    }
}

/// The model after applying, left to right, the names of the symbols in `s`,
/// or the first symbol that names nothing.
pub open spec fn model_parse(s: Seq<char>) -> Result<SpecModel, CharsetError>
    decreases s.len(),
{
    if s.len() == 0 {
        Ok(model_empty())
    } else {
        match model_parse(s.drop_last()) {
            Err(e) => Err(e),
            Ok(m) => match name_of_symbol(s.last()) {
                Some(n) => Ok(model_add(m, n)),
                None => Err(CharsetError::InvalidInput(s.last())),
            },
        }
    }
}

/// The characters of a group when its flag is set, none otherwise.
pub open spec fn group_if(flag: bool, group: Seq<char>) -> Set<char> {
    if flag {
        group.to_set()
    } else {
        Set::empty()
    }
}

/// The characters an alphabet built from `m` holds.
pub open spec fn members(m: SpecModel) -> Set<char> {
    group_if(m.alpha_upper, alpha_upper_group())
        + group_if(m.alpha_lower, alpha_lower_group())
        + group_if(m.numeric, numeric_group())
        + group_if(m.mathops, mathops_group())
        + group_if(m.prose, prose_group())
        + group_if(m.delim, delim_group())
        + group_if(m.misc_special, misc_special_group())
        + m.additions.to_set()
}

/// Every character of `s` has a smaller code point than each that follows it.
pub open spec fn strictly_ascending(s: Seq<char>) -> bool {
    forall|i: int, j: int| 0 <= i < j < s.len() ==> (s[i] as u32) < (s[j] as u32)
}


/// Which groups an alphabet takes, and which single characters besides.
///
/// Names are added with `+=` and removed with `-=`; characters and strings
/// are added with `+=`. `construct` turns the specification into an alphabet.
#[derive(Debug)]
pub struct CharsetSpec {
    alpha_lower: bool,
    alpha_upper: bool,
    numeric: bool,
    mathops: bool,
    prose: bool,
    delim: bool,
    misc_special: bool,
    additions: Vec<char>,
}

impl View for CharsetSpec {
    type V = SpecModel;

    closed spec fn view(&self) -> SpecModel {
        SpecModel {
            alpha_lower: self.alpha_lower,
            alpha_upper: self.alpha_upper,
            numeric: self.numeric,
            mathops: self.mathops,
            prose: self.prose,
            delim: self.delim,
            misc_special: self.misc_special,
            additions: self.additions@,
        }
    }
}

/// Inserts `c` into the ascending `v` unless it holds it already.
fn insert_sorted(v: &mut Vec<char>, c: char)
    requires
        strictly_ascending(old(v)@),
    ensures
        strictly_ascending(final(v)@),
        final(v)@.to_set() == old(v)@.to_set().insert(c),
{
    let mut i: usize = 0;
    while i < v.len() && (v[i] as u32) < (c as u32)
        invariant
            i <= v@.len(),
            strictly_ascending(v@),
            forall|k: int| 0 <= k < i ==> (v@[k] as u32) < (c as u32),
        decreases v@.len() - i,
    {
        i = i + 1;
    }
    if i < v.len() && v[i] == c {
        assert(v@.to_set().insert(c) =~= v@.to_set());
        return;
    }
    let ghost before = v@;
    v.insert(i, c);
    assert(v@ == before.insert(i as int, c));
    assert forall|a: int, b: int| 0 <= a < b < v@.len() implies (v@[a] as u32) < (v@[b] as u32) by {
        let va = if a < i { before[a] } else if a == i { c } else { before[a - 1] };
        let vb = if b < i { before[b] } else if b == i { c } else { before[b - 1] };
        assert(v@[a] == va);
        assert(v@[b] == vb);
        if b > i {
            assert((before[i as int] as u32) >= (c as u32));
            assert(before[i as int] != c);
            char_u32_cast(before[i as int], before[i as int] as u32);
            char_u32_cast(c, c as u32);
            if b - 1 > i {
                assert((before[i as int] as u32) < (before[b - 1] as u32));
            }
        }
    }
    assert(v@.to_set() =~= before.to_set().insert(c)) by {
        assert forall|x: char| v@.to_set().contains(x) <==> before.to_set().insert(c).contains(x) by {
            if v@.to_set().contains(x) {
                let k = choose|k: int| 0 <= k < v@.len() && v@[k] == x;
                if k < i {
                    assert(before[k] == x);
                } else if k > i {
                    assert(before[k - 1] == x);
                }
            }
            if before.to_set().contains(x) {
                let k = choose|k: int| 0 <= k < before.len() && before[k] == x;
                if k < i {
                    assert(v@[k] == x);
                } else {
                    assert(v@[k + 1] == x);
                }
            }
            if x == c {
                assert(v@[i as int] == c);
            }
        }
    }
}

/// Inserts every character of `src` into the ascending `v`.
fn insert_all(v: &mut Vec<char>, src: &Vec<char>)
    requires
        strictly_ascending(old(v)@),
    ensures
        strictly_ascending(final(v)@),
        final(v)@.to_set() == old(v)@.to_set() + src@.to_set(),
{
    let ghost start = v@.to_set();
    let mut i: usize = 0;
    while i < src.len()
        invariant
            i <= src@.len(),
            strictly_ascending(v@),
            v@.to_set() == start + src@.subrange(0, i as int).to_set(),
        decreases src@.len() - i,
    {
        insert_sorted(v, src[i]);
        assert(src@.subrange(0, i + 1) =~= src@.subrange(0, i as int).push(src@[i as int]));
        proof {
            src@.subrange(0, i as int).lemma_push_to_set_commute(src@[i as int]);
        }
        i = i + 1;
        assert(v@.to_set() =~= start + src@.subrange(0, i as int).to_set());
    }
    assert(src@.subrange(0, src@.len() as int) =~= src@);
}


/// An ascending sequence holds no character twice.
proof fn lemma_ascending_no_duplicates(s: Seq<char>)
    requires
        strictly_ascending(s),
    ensures
        s.no_duplicates(),
{
}

/// Once a prefix of `s` fails to parse, `s` fails with the same error.
proof fn lemma_parse_error_persists(s: Seq<char>, i: int, j: int)
    requires
        0 <= i <= j <= s.len(),
        model_parse(s.subrange(0, i)) is Err,
    ensures
        model_parse(s.subrange(0, j)) == model_parse(s.subrange(0, i)),
    decreases j - i,
{
    if j > i {
        lemma_parse_error_persists(s, i, j - 1);
        assert(s.subrange(0, j).drop_last() =~= s.subrange(0, j - 1));
    }
}

impl CharsetSpec {
    /// Builds the alphabet: the characters of every group whose flag is set
    /// and every added character, ascending by code point, each once.
    pub fn construct(self) -> (r: Vec<char>)
        ensures
            strictly_ascending(r@),
            r@.no_duplicates(),
            r@.to_set() == members(self@),
    {
        let ghost m = self@;
        let mut set: Vec<char> = Vec::new();
        assert(set@.to_set() =~= Set::<char>::empty());
        if self.alpha_upper {
            insert_all(&mut set, &charset_alpha_upper());
        }
        if self.alpha_lower {
            insert_all(&mut set, &charset_alpha_lower());
        }
        if self.numeric {
            insert_all(&mut set, &charset_numeric());
        }
        if self.mathops {
            insert_all(&mut set, &charset_mathops());
        }
        if self.prose {
            insert_all(&mut set, &charset_prose());
        }
        if self.delim {
            insert_all(&mut set, &charset_delim());
        }
        if self.misc_special {
            insert_all(&mut set, &charset_misc_special());
        }
        insert_all(&mut set, &self.additions);
        assert(set@.to_set() =~= members(m));
        proof {
            lemma_ascending_no_duplicates(set@);
        }
        set
    }

    /// A specification with no group and no character.
    pub fn empty() -> (r: Self)
        ensures
            r@ == model_empty(),
    {
        let r = CharsetSpec {
            alpha_lower: false,
            alpha_upper: false,
            numeric: false,
            mathops: false,
            prose: false,
            delim: false,
            misc_special: false,
            additions: Vec::new(),
        };
        assert(r@.additions =~= Seq::<char>::empty());
        r
    }

    /// The standard specification: letters, digits, `-` and `_`.
    pub fn std64() -> (r: Self)
        ensures
            r@ == (SpecModel {
                alpha_lower: true,
                alpha_upper: true,
                numeric: true,
                additions: seq!['-', '_'],
                ..model_empty()
            }),
    {
        let r = CharsetSpec {
            alpha_lower: true,
            alpha_upper: true,
            numeric: true,
            mathops: false,
            prose: false,
            delim: false,
            misc_special: false,
            additions: vec!['-', '_'],
        };
        assert(r@.additions =~= seq!['-', '_']);
        r
    }

    /// Every atomic group: the printable ASCII characters.
    pub fn printable_ascii() -> (r: Self)
        ensures
            r@ == (SpecModel {
                alpha_lower: true,
                alpha_upper: true,
                numeric: true,
                mathops: true,
                prose: true,
                delim: true,
                misc_special: true,
                additions: Seq::empty(),
            }),
    {
        let r = CharsetSpec {
            alpha_lower: true,
            alpha_upper: true,
            numeric: true,
            mathops: true,
            prose: true,
            delim: true,
            misc_special: true,
            additions: Vec::new(),
        };
        assert(r@.additions =~= Seq::<char>::empty());
        r
    }

    /// Sets the flags of the groups that `name` stands for.
    pub fn add_name(&mut self, name: CharsetName)
        ensures
            final(self)@ == model_add(old(self)@, name),
    {
        match name {
            CharsetName::AlphaLower => self.alpha_lower = true,
            CharsetName::AlphaUpper => self.alpha_upper = true,
            CharsetName::Numeric => self.numeric = true,
            CharsetName::Mathops => self.mathops = true,
            CharsetName::Prose => self.prose = true,
            CharsetName::Delim => self.delim = true,
            CharsetName::MiscSpecial => self.misc_special = true,
            CharsetName::Alpha => {
                self.alpha_lower = true;
                self.alpha_upper = true;
            },
            CharsetName::Special => {
                self.mathops = true;
                self.prose = true;
                self.delim = true;
                self.misc_special = true;
            },
        }
    }

    /// Clears the flags of the groups that `name` stands for.
    pub fn remove_name(&mut self, name: CharsetName)
        ensures
            final(self)@ == model_remove(old(self)@, name),
    {
        match name {
            CharsetName::AlphaLower => self.alpha_lower = false,
            CharsetName::AlphaUpper => self.alpha_upper = false,
            CharsetName::Numeric => self.numeric = false,
            CharsetName::Mathops => self.mathops = false,
            CharsetName::Prose => self.prose = false,
            CharsetName::Delim => self.delim = false,
            CharsetName::MiscSpecial => self.misc_special = false,
            CharsetName::Alpha => {
                self.alpha_lower = false;
                self.alpha_upper = false;
            },
            CharsetName::Special => {
                self.mathops = false;
                self.prose = false;
                self.delim = false;
                self.misc_special = false;
            },
        }
    }

    /// Adds one character; a repeat is kept, and `construct` removes it.
    pub fn add_char(&mut self, c: char)
        ensures
            final(self)@ == (SpecModel { additions: old(self)@.additions.push(c), ..old(self)@ }),
    {
        self.additions.push(c);
    }

    /// Adds every character of `more`, in order.
    pub fn add_str(&mut self, more: &str)
        ensures
            final(self)@ == (SpecModel { additions: old(self)@.additions + more@, ..old(self)@ }),
    {
        let ghost start = self@;
        let n = more.unicode_len();
        let mut i: usize = 0;
        while i < n
            invariant
                n == more@.len(),
                i <= n,
                self@ == (SpecModel {
                    additions: start.additions + more@.subrange(0, i as int),
                    ..start
                }),
            decreases n - i,
        {
            self.add_char(more.get_char(i));
            i = i + 1;
            assert(start.additions + more@.subrange(0, i as int) =~= start.additions
                + more@.subrange(0, i - 1).push(more@[i - 1]));
        }
        assert(more@.subrange(0, n as int) =~= more@);
    }

    /// Reads a specification from its symbols, applied left to right to an
    /// empty specification; fails at the first symbol that names no group.
    pub fn parse(s: &str) -> (r: Result<CharsetSpec, CharsetError>)
        ensures
            match model_parse(s@) {
                Ok(m) => r is Ok && r->Ok_0@ == m,
                Err(e) => r == Err::<CharsetSpec, CharsetError>(e),
            },
    {
        let mut spec = CharsetSpec::empty();
        let n = s.unicode_len();
        let mut i: usize = 0;
        assert(s@.subrange(0, 0) =~= Seq::<char>::empty());
        while i < n
            invariant
                n == s@.len(),
                i <= n,
                model_parse(s@.subrange(0, i as int)) == Ok::<SpecModel, CharsetError>(spec@),
            decreases n - i,
        {
            let c = s.get_char(i);
            assert(s@.subrange(0, i + 1).drop_last() =~= s@.subrange(0, i as int));
            match CharsetName::try_from(c) {
                Ok(name) => spec.add_name(name),
                Err(e) => {
                    proof {
                        lemma_parse_error_persists(s@, i + 1, n as int);
                        assert(s@.subrange(0, n as int) =~= s@);
                    }
                    return Err(e);
                },
            }
            i = i + 1;
        }
        assert(s@.subrange(0, n as int) =~= s@);
        Ok(spec)
    }
}

impl std::ops::AddAssign<CharsetName> for CharsetSpec {
    fn add_assign(&mut self, name: CharsetName) {
        self.add_name(name);
    }
}

impl std::ops::SubAssign<CharsetName> for CharsetSpec {
    fn sub_assign(&mut self, name: CharsetName) {
        self.remove_name(name);
    }
}

impl std::ops::AddAssign<char> for CharsetSpec {
    fn add_assign(&mut self, c: char) {
        self.add_char(c);
    }
}

impl<'a> std::ops::AddAssign<&'a str> for CharsetSpec {
    fn add_assign(&mut self, more: &'a str) {
        self.add_str(more);
    }
}

impl std::str::FromStr for CharsetSpec {
    type Err = CharsetError;

    fn from_str(s: &str) -> Result<CharsetSpec, CharsetError> {
        CharsetSpec::parse(s)
    }
}


/// Applying two names gives the same state in either order.
pub proof fn lemma_add_order_irrelevant(m: SpecModel, a: CharsetName, b: CharsetName)
    ensures
        model_add(model_add(m, a), b) == model_add(model_add(m, b), a),
{
}

/// Adding two characters in either order gives an alphabet of the same
/// characters.
pub proof fn lemma_add_char_order_irrelevant(m: SpecModel, c: char, d: char)
    ensures
        members(SpecModel { additions: m.additions.push(c).push(d), ..m }) == members(
            SpecModel { additions: m.additions.push(d).push(c), ..m },
        ),
{
    m.additions.lemma_push_to_set_commute(c);
    m.additions.push(c).lemma_push_to_set_commute(d);
    m.additions.lemma_push_to_set_commute(d);
    m.additions.push(d).lemma_push_to_set_commute(c);
    assert(m.additions.push(c).push(d).to_set() =~= m.additions.push(d).push(c).to_set());
}

/// Removing a name right after adding it clears the flags of all its groups,
/// also those that were set before, and leaves the rest of the state as it
/// was before the add.
pub proof fn lemma_remove_after_add(m: SpecModel, n: CharsetName)
    ensures
        model_remove(model_add(m, n), n) == model_remove(m, n),
{
}

/// Two ascending sequences of the same characters are equal: an alphabet is
/// determined by the characters it holds, whatever order they were added in.
pub proof fn lemma_alphabet_determined(a: Seq<char>, b: Seq<char>)
    requires
        strictly_ascending(a),
        strictly_ascending(b),
        a.to_set() == b.to_set(),
    ensures
        a == b,
    decreases a.len(),
{
    if a.len() == 0 {
        if b.len() > 0 {
            assert(b.to_set().contains(b[0]));
        }
        assert(a =~= b);
    } else {
        assert(a.to_set().contains(a[0]));
        assert(b.len() > 0);
        assert(b.to_set().contains(b[0]));
        let ka = choose|k: int| 0 <= k < a.len() && a[k] == b[0];
        let kb = choose|k: int| 0 <= k < b.len() && b[k] == a[0];
        assert(a[0] == b[0]) by {
            if ka > 0 {
                assert((a[0] as u32) < (b[0] as u32));
            }
            if kb > 0 {
                assert((b[0] as u32) < (a[0] as u32));
            }
        }
        let ta = a.drop_first();
        let tb = b.drop_first();
        assert(ta.to_set() =~= tb.to_set()) by {
            assert forall|x: char| ta.to_set().contains(x) implies tb.to_set().contains(x) by {
                let k = choose|k: int| 0 <= k < ta.len() && ta[k] == x;
                assert(a[k + 1] == x);
                assert(b.to_set().contains(x));
                let j = choose|j: int| 0 <= j < b.len() && b[j] == x;
                if j == 0 {
                    assert((a[0] as u32) < (a[k + 1] as u32));
                }
                assert(tb[j - 1] == x);
            }
            assert forall|x: char| tb.to_set().contains(x) implies ta.to_set().contains(x) by {
                let k = choose|k: int| 0 <= k < tb.len() && tb[k] == x;
                assert(b[k + 1] == x);
                assert(a.to_set().contains(x));
                let j = choose|j: int| 0 <= j < a.len() && a[j] == x;
                if j == 0 {
                    assert((b[0] as u32) < (b[k + 1] as u32));
                }
                assert(ta[j - 1] == x);
            }
        }
        lemma_alphabet_determined(ta, tb);
        assert(a =~= b) by {
            assert forall|i: int| 0 <= i < a.len() implies a[i] == b[i] by {
                if i > 0 {
                    assert(a[i] == ta[i - 1]);
                    assert(b[i] == tb[i - 1]);
                }
            }
        }
    }
}

/// Applying names in either order gives the same alphabet: whenever two
/// alphabets are valid results of `construct` for the two orders, they are
/// equal.
pub proof fn lemma_construct_order_irrelevant(
    m: SpecModel,
    a: CharsetName,
    b: CharsetName,
    r1: Seq<char>,
    r2: Seq<char>,
)
    requires
        strictly_ascending(r1),
        r1.to_set() == members(model_add(model_add(m, a), b)),
        strictly_ascending(r2),
        r2.to_set() == members(model_add(model_add(m, b), a)),
    ensures
        r1 == r2,
{
    lemma_add_order_irrelevant(m, a, b);
    lemma_alphabet_determined(r1, r2);
}

} // verus!
