//! Placeholder tokens: the text between `{` and `}`, of the form
//! `value[:case]`.

use crate::case::{case_in, Case};
use crate::error::ConfigurationError;
use crate::text::{find, position, to_chars};
use vstd::prelude::*;

verus! {

/// The category of words a placeholder draws from.
#[derive(Clone, Copy, Debug, PartialEq, Eq, Structural)]
pub enum RequirementType {
    /// A topic, key `t`.
    Noun,
    /// A flavour, key `f`.
    Flavour,
    /// A verb, key `v`.
    Verb,
    /// A demographic, key `demo`.
    Demographic,
}

/// What a placeholder asks for: a word of a category, in a case.
#[derive(Clone, Copy, Debug, PartialEq, Eq, Structural)]
pub struct Requirement {
    pub ty: RequirementType,
    pub case: Case,
}

/// The category that a key stands for within `chars[from..to]`.
fn category_in(chars: &Vec<char>, from: usize, to: usize) -> (ty: Option<RequirementType>)
    requires
        from <= to <= chars.len(),
    ensures
        ty == RequirementType::of_key(chars@.subrange(from as int, to as int)),
{
    if to - from == 1 {
        let c = chars[from];
        if c == 't' {
            Some(RequirementType::Noun)
        } else if c == 'f' {
            Some(RequirementType::Flavour)
        } else if c == 'v' {
            Some(RequirementType::Verb)
        } else {
            None
        }
    } else if to - from == 4 {
        if chars[from] == 'd' && chars[from + 1] == 'e' && chars[from + 2] == 'm' && chars[from
            + 3] == 'o' {
            Some(RequirementType::Demographic)
        } else {
            None
        }
    } else {
        None
    }
}

/// The requirement that the token `chars[from..to]` states.
pub(crate) fn requirement_in(chars: &Vec<char>, from: usize, to: usize) -> (parsed: Result<
    Requirement,
    ConfigurationError,
>)
    requires
        from <= to <= chars.len(),
    ensures
        parsed == Requirement::of_token(chars@.subrange(from as int, to as int)),
{
    let ghost token = chars@.subrange(from as int, to as int);
    if from == to {
        return Err(ConfigurationError::EmptyToken);
    }
    let colon = find(chars, ':', from, to);
    assert(chars@.subrange(from as int, colon as int) =~= token.take(colon - from));
    let ty = match category_in(chars, from, colon) {
        Some(ty) => ty,
        None => {
            return Err(ConfigurationError::UnknownCategory);
        },
    };
    if colon >= to || colon + 1 >= to {
        return Ok(Requirement { ty, case: Case::Pass });
    }
    assert(chars@.subrange(colon + 1, to as int) =~= token.skip(colon - from + 1));
    match case_in(chars, colon + 1, to) {
        Some(case) => Ok(Requirement { ty, case }),
        None => Err(ConfigurationError::UnknownCase),
    }
}

impl RequirementType {
    /// The category that a key stands for: `t` is `Noun`, `f` is `Flavour`,
    /// `v` is `Verb`, `demo` is `Demographic`. Nothing else is a key.
    pub open spec fn of_key(key: Seq<char>) -> Option<RequirementType> {
        if key.len() == 1 && key[0] == 't' {
            Some(RequirementType::Noun)
        } else if key.len() == 1 && key[0] == 'f' {
            Some(RequirementType::Flavour)
        } else if key.len() == 1 && key[0] == 'v' {
            Some(RequirementType::Verb)
        } else if key.len() == 4 && key[0] == 'd' && key[1] == 'e' && key[2] == 'm' && key[3]
            == 'o' {
            Some(RequirementType::Demographic)
        } else {
            None
        }
    }

    /// Reads a category key.
    pub fn parse(t: &str) -> (parsed: Result<RequirementType, ConfigurationError>)
        ensures
            parsed == match RequirementType::of_key(t@) {
                Some(ty) => Ok::<RequirementType, ConfigurationError>(ty),
                None => Err(ConfigurationError::UnknownCategory),
            },
    {
        let chars = to_chars(t);
        assert(chars@.subrange(0, chars@.len() as int) =~= t@);
        match category_in(&chars, 0, chars.len()) {
            Some(ty) => Ok(ty),
            None => Err(ConfigurationError::UnknownCategory),
        }
    }
}

impl Requirement {
    /// What a token states. The category key is the text before the first
    /// `:`. The case code is all the text after that `:`; where there is no
    /// `:`, or nothing after it, the case is `Pass`. A token holds one `:` at
    /// most: a second one is part of the code, and no code holds a `:`.
    pub open spec fn of_token(token: Seq<char>) -> Result<Requirement, ConfigurationError> {
        let colon = position(token, ':') as int;
        if token.len() == 0 {
            Err(ConfigurationError::EmptyToken)
        } else {
            match RequirementType::of_key(token.take(colon)) {
                None => Err(ConfigurationError::UnknownCategory),
                Some(ty) => if colon + 1 >= token.len() {
                    Ok(Requirement { ty, case: Case::Pass })
                } else {
                    match Case::of_code(token.skip(colon + 1)) {
                        None => Err(ConfigurationError::UnknownCase),
                        Some(case) => Ok(Requirement { ty, case }),
                    }
                },
            }
        }
    }

    /// Reads a token.
    pub fn parse(token: &str) -> (parsed: Result<Requirement, ConfigurationError>)
        ensures
            parsed == Requirement::of_token(token@),
    {
        let chars = to_chars(token);
        assert(chars@.subrange(0, chars@.len() as int) =~= token@);
        requirement_in(&chars, 0, chars.len())
    }
}

} // verus!
