//! Templates and their substitution: one left-to-right pass that replaces
//! every placeholder by a word of its category.

use crate::corpus::{words_of, Corpora, CorpusSet};
use crate::error::{ConfigurationError, SubstituteError};
use crate::random::draw_index;
use crate::requirement::{requirement_in, Requirement};
use crate::text::{find, position, push_range, to_chars};
use rand::rngs::StdRng;
use vstd::prelude::*;
use vstd::string::StringExecFns;

verus! {


/// There is no brace in `text`.
pub open spec fn is_plain(text: Seq<char>) -> bool {
    position(text, '{') == text.len() && position(text, '}') == text.len()
}

/// The token of the first placeholder: the text between the first `{` and the
/// first `}`.
pub open spec fn token_of(text: Seq<char>) -> Seq<char> {
    text.subrange(position(text, '{') as int + 1, position(text, '}') as int)
}

/// The text before the first placeholder.
pub open spec fn before_slot(text: Seq<char>) -> Seq<char> {
    text.take(position(text, '{') as int)
}

/// The text after the first placeholder.
pub open spec fn after_slot(text: Seq<char>) -> Seq<char> {
    text.skip(position(text, '}') as int + 1)
}

/// The first brace of `text` opens a placeholder: it is a `{`, a `}` follows
/// it, and no other `{` stands between the two.
pub open spec fn has_slot(text: Seq<char>) -> bool {
    &&& position(text, '{') < position(text, '}') < text.len()
    &&& position(token_of(text), '{') == token_of(text).len()
}

/// The first thing wrong with `text`, going from left to right; `None` where
/// every placeholder can be filled in.
pub open spec fn first_defect(text: Seq<char>, corpora: Corpora) -> Option<SubstituteError>
    decreases text.len(),
{
    if is_plain(text) {
        None
    } else if !has_slot(text) {
        Some(SubstituteError::TemplateSyntax)
    } else {
        match Requirement::of_token(token_of(text)) {
            Err(e) => Some(SubstituteError::Configuration(e)),
            Ok(requirement) => if corpora.words(requirement.ty).len() == 0 {
                Some(SubstituteError::Configuration(ConfigurationError::EmptyCorpus))
            } else {
                first_defect(after_slot(text), corpora)
            },
        }
    }
}

/// `draws` holds one index for each placeholder of `text`, in order, and each
/// index points into the corpus of its placeholder.
pub open spec fn draws_fit(text: Seq<char>, corpora: Corpora, draws: Seq<int>) -> bool
    decreases text.len(),
{
    if is_plain(text) {
        draws.len() == 0
    } else if !has_slot(text) {
        false
    } else {
        match Requirement::of_token(token_of(text)) {
            Err(_) => false,
            Ok(requirement) => {
                &&& draws.len() > 0
                &&& 0 <= draws[0] < corpora.words(requirement.ty).len()
                &&& draws_fit(after_slot(text), corpora, draws.skip(1))
            },
        }
    }
}

/// `text` with each placeholder replaced by the word that `draws` picks for it,
/// in the case that the placeholder asks for. Text outside placeholders is
/// kept as it is.
pub open spec fn expansion(text: Seq<char>, corpora: Corpora, draws: Seq<int>) -> Seq<char>
    decreases text.len(),
{
    if has_slot(text) {
        match Requirement::of_token(token_of(text)) {
            Err(_) => text,
            Ok(requirement) => before_slot(text) + requirement.case.apply(
                corpora.words(requirement.ty)[draws[0]],
            ) + expansion(after_slot(text), corpora, draws.skip(1)),
        }
    } else {
        text
    }
}

/// `headline` is what `text` expands to under some draws that fit.
pub open spec fn can_yield(text: Seq<char>, corpora: Corpora, headline: Seq<char>) -> bool {
    exists|draws: Seq<int>| #[trigger]
        draws_fit(text, corpora, draws) && headline == expansion(text, corpora, draws)
}

/// The word at `index` in the corpus of the requirement's category, in the
/// requirement's case.
pub fn resolve(requirement: &Requirement, corpora: &CorpusSet, index: usize) -> (word: String)
    requires
        index < corpora@.words(requirement.ty).len(),
    ensures
        word@ == requirement.case.apply(corpora@.words(requirement.ty)[index as int]),
{
    let list = corpora.corpus(requirement.ty);
    assert(words_of(list@)[index as int] == list@[index as int]@);
    requirement.case.transform_str(list[index].as_str())
}

/// Fills in `template`: every placeholder is replaced by a word drawn from the
/// corpus of its category, one draw for each placeholder, in the case the
/// placeholder asks for.
///
/// The pass stops at the first defect and returns it. Which words are drawn is
/// up to `rng`; the result is the expansion under some draws that fit.
pub fn substitute(template: &str, corpora: &CorpusSet, rng: &mut StdRng) -> (result: Result<
    String,
    SubstituteError,
>)
    ensures
        match result {
            Ok(headline) => {
                &&& first_defect(template@, corpora@) is None
                &&& can_yield(template@, corpora@, headline@)
            },
            Err(e) => first_defect(template@, corpora@) == Some(e),
        },
{
    let chars = to_chars(template);
    let len = chars.len();
    let mut out = String::new();
    let mut pos: usize = 0;
    let ghost mut drawn: Seq<int> = Seq::empty();
    assert(chars@.skip(0) =~= chars@);
    assert forall|rest: Seq<int>| drawn + rest == rest by {
        assert(drawn + rest =~= rest);
    }
    loop
        invariant
            chars@ == template@,
            pos <= len == chars.len(),
            first_defect(chars@, corpora@) == first_defect(chars@.skip(pos as int), corpora@),
            forall|rest: Seq<int>| #[trigger]
                draws_fit(chars@.skip(pos as int), corpora@, rest) ==> {
                    &&& draws_fit(chars@, corpora@, drawn + rest)
                    &&& expansion(chars@, corpora@, drawn + rest) == out@ + expansion(
                        chars@.skip(pos as int),
                        corpora@,
                        rest,
                    )
                },
        decreases len - pos,
    {
        let ghost text = chars@.skip(pos as int);
        let open = find(&chars, '{', pos, len);
        let close = find(&chars, '}', pos, len);
        if open == len && close == len {
            push_range(&mut out, &chars, pos, len);
            proof {
                let none = Seq::<int>::empty();
                assert(draws_fit(text, corpora@, none));
                assert(drawn + none =~= drawn);
            }
            return Ok(out);
        }
        if close < open || close == len {
            return Err(SubstituteError::TemplateSyntax);
        }
        assert(chars@.subrange(open + 1, close as int) =~= token_of(text));
        let inner = find(&chars, '{', open + 1, close);
        if inner < close {
            return Err(SubstituteError::TemplateSyntax);
        }
        let requirement = match requirement_in(&chars, open + 1, close) {
            Ok(requirement) => requirement,
            Err(e) => {
                return Err(SubstituteError::Configuration(e));
            },
        };
        let bound = corpora.corpus(requirement.ty).len();
        if bound == 0 {
            return Err(SubstituteError::Configuration(ConfigurationError::EmptyCorpus));
        }
        let index = draw_index(rng, bound);
        let word = resolve(&requirement, corpora, index);
        let ghost before = out@;
        push_range(&mut out, &chars, pos, open);
        out.append(word.as_str());
        proof {
            let next = chars@.skip(close + 1);
            assert(after_slot(text) =~= next);
            assert(before_slot(text) =~= chars@.subrange(pos as int, open as int));
            assert forall|rest: Seq<int>| #[trigger]
                draws_fit(next, corpora@, rest) implies draws_fit(
                chars@,
                corpora@,
                drawn.push(index as int) + rest,
            ) && expansion(chars@, corpora@, drawn.push(index as int) + rest) == out@ + expansion(
                next,
                corpora@,
                rest,
            ) by {
                let here = seq![index as int] + rest;
                assert(here.skip(1) =~= rest);
                assert(draws_fit(text, corpora@, here));
                assert(drawn + here =~= drawn.push(index as int) + rest);
                assert(before + (before_slot(text) + word@ + expansion(next, corpora@, rest))
                    =~= out@ + expansion(next, corpora@, rest));
            }
            drawn = drawn.push(index as int);
        }
        pos = close + 1;
    }
}

} // verus!
