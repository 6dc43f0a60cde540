//! How a chosen word is cased before it is put into a headline.

use crate::error::ConfigurationError;
use crate::text::{no_brace, push_range, to_chars};
use vstd::prelude::*;
use vstd::string::StringExecFns;

verus! {

/// The casing a placeholder asks for.
#[derive(Clone, Copy, Debug, PartialEq, Eq, Structural)]
pub enum Case {
    /// Leave the word as it is: `toPiC` stays `toPiC`.
    Pass,
    /// Uppercase the first letter: `toPiC` becomes `ToPiC`, `élan` becomes
    /// `Élan`.
    Capitalise,
    /// Uppercase every letter: `toPiC` becomes `TOPIC`.
    Upper,
    /// Lowercase every letter: `toPiC` becomes `topic`.
    Lower,
}

/// What `str::to_uppercase` returns for a string with the characters `s`.
pub uninterp spec fn uppercase(s: Seq<char>) -> Seq<char>;

/// What `str::to_lowercase` returns for a string with the characters `s`.
pub uninterp spec fn lowercase(s: Seq<char>) -> Seq<char>;

/// The ASCII letters `a` to `z` become `A` to `Z`; every other character is
/// itself.
pub open spec fn ascii_upper(c: char) -> char {
    if 'a' <= c <= 'z' {
        ((c as u8) - 32) as char
    } else {
        c
    }
}

/// The character is one of ASCII.
pub open spec fn is_ascii_char(c: char) -> bool {
    c <= '\u{7f}'
}

/// `s` with its first character, if there is one, in upper case, and the rest
/// as it is. An ASCII character becomes its `ascii_upper`; any other becomes
/// what `uppercase` makes of it alone, which may be more than one character.
pub open spec fn capitalise(s: Seq<char>) -> Seq<char> {
    if s.len() == 0 {
        s
    } else if is_ascii_char(s[0]) {
        s.update(0, ascii_upper(s[0]))
    } else {
        uppercase(s.take(1)) + s.skip(1)
    }
}

/// `str::to_uppercase`: the uppercase equivalent of the string under Unicode's
/// case mapping, as a new `String`. All that is claimed is that the result is
/// a function of the characters handed in, named `uppercase`.
#[verifier::external_body]
fn to_uppercase(s: &str) -> (upper: String)
    ensures
        upper@ == uppercase(s@),
{
    s.to_uppercase()
}

/// `str::to_lowercase`: the lowercase equivalent of the string under Unicode's
/// case mapping, as a new `String`. All that is claimed is that the result is
/// a function of the characters handed in, named `lowercase`.
#[verifier::external_body]
fn to_lowercase(s: &str) -> (lower: String)
    ensures
        lower@ == lowercase(s@),
{
    s.to_lowercase()
}

fn to_ascii_upper(c: char) -> (upper: char)
    ensures
        upper == ascii_upper(c),
{
    if c >= 'a' && c <= 'z' {
        ((c as u8) - 32u8) as char
    } else {
        c
    }
}

fn to_capitalised(s: &str) -> (out: String)
    ensures
        out@ == capitalise(s@),
{
    let chars = to_chars(s);
    let mut out = String::new();
    if chars.len() > 0 {
        let first = chars[0];
        if first <= '\u{7f}' {
            out.push(to_ascii_upper(first));
        } else {
            let mut head = String::new();
            head.push(first);
            assert(head@ =~= s@.take(1));
            let upper = to_uppercase(head.as_str());
            out.append(upper.as_str());
        }
        push_range(&mut out, &chars, 1, chars.len());
        assert(out@ =~= capitalise(s@));
    }
    out
}

/// The case that a code stands for within `chars[from..to]`.
pub(crate) fn case_in(chars: &Vec<char>, from: usize, to: usize) -> (case: Option<Case>)
    requires
        from <= to <= chars.len(),
    ensures
        case == Case::of_code(chars@.subrange(from as int, to as int)),
{
    if to - from != 1 {
        return None;
    }
    let c = chars[from];
    if c == '_' || c == 'p' {
        Some(Case::Pass)
    } else if c == 'c' {
        Some(Case::Capitalise)
    } else if c == 'u' {
        Some(Case::Upper)
    } else if c == 'l' {
        Some(Case::Lower)
    } else {
        None
    }
}

impl Case {
    /// The case that a code stands for. A code is one character: `_` and `p`
    /// are `Pass`, `c` is `Capitalise`, `u` is `Upper`, `l` is `Lower`. Nothing
    /// else is a code.
    pub open spec fn of_code(code: Seq<char>) -> Option<Case> {
        if code.len() != 1 {
            None
        } else if code[0] == '_' || code[0] == 'p' {
            Some(Case::Pass)
        } else if code[0] == 'c' {
            Some(Case::Capitalise)
        } else if code[0] == 'u' {
            Some(Case::Upper)
        } else if code[0] == 'l' {
            Some(Case::Lower)
        } else {
            None
        }
    }

    /// The word `s` in this case.
    pub open spec fn apply(self, s: Seq<char>) -> Seq<char> {
        match self {
            Case::Pass => s,
            Case::Capitalise => capitalise(s),
            Case::Upper => uppercase(s),
            Case::Lower => lowercase(s),
        }
    }

    /// Reads a case code.
    pub fn parse(s: &str) -> (parsed: Result<Case, ConfigurationError>)
        ensures
            parsed == match Case::of_code(s@) {
                Some(case) => Ok::<Case, ConfigurationError>(case),
                None => Err(ConfigurationError::UnknownCase),
            },
    {
        let chars = to_chars(s);
        assert(chars@.subrange(0, chars@.len() as int) =~= s@);
        match case_in(&chars, 0, chars.len()) {
            Some(case) => Ok(case),
            None => Err(ConfigurationError::UnknownCase),
        }
    }

    /// Puts `input` into this case, as a new string.
    pub fn transform_str(&self, input: &str) -> (output: String)
        ensures
            output@ == self.apply(input@),
    {
        match self {
            Case::Pass => input.to_owned(),
            Case::Capitalise => to_capitalised(input),
            Case::Upper => to_uppercase(input),
            Case::Lower => to_lowercase(input),
        }
    }
}

/// `Pass` changes nothing.
pub proof fn lemma_pass_is_identity(s: Seq<char>)
    ensures
        Case::Pass.apply(s) == s,
{
}

/// Capitalising twice is capitalising once, for a word that is empty or
/// starts with an ASCII character.
pub proof fn lemma_capitalise_idempotent(s: Seq<char>)
    requires
        s.len() > 0 ==> is_ascii_char(s[0]),
    ensures
        Case::Capitalise.apply(Case::Capitalise.apply(s)) == Case::Capitalise.apply(s),
{
    assert(capitalise(capitalise(s)) =~= capitalise(s));
}

/// `Pass` brings no brace into a word, and neither does `Capitalise` where the
/// word is empty or starts with an ASCII character.
pub proof fn lemma_own_cases_add_no_brace(case: Case, s: Seq<char>)
    requires
        case == Case::Pass || (case == Case::Capitalise && (s.len() > 0 ==> is_ascii_char(s[0]))),
        no_brace(s),
    ensures
        no_brace(case.apply(s)),
{
}

} // verus!
