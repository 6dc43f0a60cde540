//! Well-formed templates, and what substitution owes them.

use crate::case::{is_ascii_char, lemma_own_cases_add_no_brace, Case};
use crate::corpus::Corpora;
use crate::requirement::{Requirement, RequirementType};
use crate::template::{
    after_slot, before_slot, draws_fit, expansion, first_defect, has_slot, is_plain, token_of,
};
use crate::text::{lemma_position, lemma_position_is, no_brace, position};
use vstd::prelude::*;

verus! {

/// The braces of `text` pair up, read from left to right: a `{` is followed by
/// a `}` before any other `{`, and no `}` comes without a `{` that waits for
/// it. `waiting` says whether a `{` was read that has not met its `}` yet.
pub open spec fn braces_pair(text: Seq<char>, waiting: bool) -> bool
    decreases text.len(),
{
    if text.len() == 0 {
        !waiting
    } else if text[0] == '{' {
        !waiting && braces_pair(text.skip(1), true)
    } else if text[0] == '}' {
        waiting && braces_pair(text.skip(1), false)
    } else {
        braces_pair(text.skip(1), waiting)
    }
}

/// Every `{` of `text` is closed by a `}` before the next `{`, and every `}`
/// closes a `{`.
pub open spec fn well_formed(text: Seq<char>) -> bool {
    braces_pair(text, false)
}

/// The tokens of the placeholders of `text`, in order.
pub open spec fn tokens(text: Seq<char>) -> Seq<Seq<char>>
    decreases text.len(),
{
    if has_slot(text) {
        seq![token_of(text)] + tokens(after_slot(text))
    } else {
        Seq::empty()
    }
}

/// The words that take the place of the placeholders of `text` under `draws`,
/// each in the case asked for, in order.
pub open spec fn replacements(text: Seq<char>, corpora: Corpora, draws: Seq<int>) -> Seq<Seq<char>>
    decreases text.len(),
{
    if has_slot(text) {
        match Requirement::of_token(token_of(text)) {
            Err(_) => Seq::empty(),
            Ok(requirement) => seq![
                requirement.case.apply(corpora.words(requirement.ty)[draws[0]]),
            ] + replacements(after_slot(text), corpora, draws.skip(1)),
        }
    } else {
        Seq::empty()
    }
}

/// After a `{`, the braces pair up only if a `}` follows with no `{` before it,
/// and the braces after that `}` pair up.
proof fn lemma_waiting_closes(text: Seq<char>)
    requires
        braces_pair(text, true),
    ensures
        position(text, '}') < text.len(),
        forall|j: int| 0 <= j < position(text, '}') ==> text[j] != '{',
        braces_pair(text.skip(position(text, '}') as int + 1), false),
    decreases text.len(),
{
    if text[0] != '}' {
        let rest = text.skip(1);
        lemma_waiting_closes(rest);
        let close = position(rest, '}') as int;
        assert(text.skip(close + 2) =~= rest.skip(close + 1));
        assert forall|j: int| 0 <= j < position(text, '}') implies text[j] != '{' by {
            if j > 0 {
                assert(rest[j - 1] == text[j]);
            }
        }
    }
}

/// A well-formed text has no brace at all, or starts with plain text and a
/// placeholder, and what follows the placeholder is well-formed.
pub proof fn lemma_well_formed_unfolds(text: Seq<char>)
    requires
        well_formed(text),
    ensures
        is_plain(text) || (has_slot(text) && well_formed(after_slot(text))),
    decreases text.len(),
{
    if text.len() == 0 {
    } else if text[0] == '{' {
        let rest = text.skip(1);
        lemma_waiting_closes(rest);
        let close = position(rest, '}') as int;
        assert(position(text, '}') == close + 1);
        let token = token_of(text);
        assert(token =~= rest.take(close));
        assert(after_slot(text) =~= rest.skip(close + 1));
        lemma_position_is(token, '{', close);
    } else {
        let rest = text.skip(1);
        lemma_well_formed_unfolds(rest);
        if !is_plain(rest) {
            lemma_position(rest, '{');
            lemma_position(rest, '}');
            assert(token_of(text) =~= token_of(rest));
            assert(after_slot(text) =~= after_slot(rest));
        }
    }
}

/// Substitution does not fail on a well-formed template whose tokens all state
/// a requirement, as long as no category that they name is without words.
pub proof fn lemma_well_formed_is_filled(text: Seq<char>, corpora: Corpora)
    requires
        well_formed(text),
        forall|k: int|
            0 <= k < tokens(text).len() ==> (Requirement::of_token(#[trigger] tokens(text)[k])
                matches Ok(requirement) && corpora.words(requirement.ty).len() > 0),
    ensures
        first_defect(text, corpora) is None,
        exists|draws: Seq<int>| draws_fit(text, corpora, draws),
    decreases text.len(),
{
    lemma_well_formed_unfolds(text);
    if is_plain(text) {
        assert(draws_fit(text, corpora, Seq::<int>::empty()));
    } else {
        let after = after_slot(text);
        assert(tokens(text)[0] == token_of(text));
        assert forall|k: int| 0 <= k < tokens(after).len() implies (Requirement::of_token(
            #[trigger] tokens(after)[k],
        ) matches Ok(requirement) && corpora.words(requirement.ty).len() > 0) by {
            assert(tokens(text)[k + 1] == tokens(after)[k]);
        }
        lemma_well_formed_is_filled(after, corpora);
        let later = choose|draws: Seq<int>| draws_fit(after, corpora, draws);
        let draws = seq![0int] + later;
        assert(draws.skip(1) =~= later);
        assert(draws_fit(text, corpora, draws));
    }
}

/// A brace in a headline is a brace of a word that was put in: the text of the
/// template outside its placeholders brings none.
pub proof fn lemma_braces_come_from_words(text: Seq<char>, corpora: Corpora, draws: Seq<int>)
    requires
        draws_fit(text, corpora, draws),
    ensures
        no_brace(expansion(text, corpora, draws)) <==> forall|k: int|
            0 <= k < replacements(text, corpora, draws).len() ==> no_brace(
                #[trigger] replacements(text, corpora, draws)[k],
            ),
    decreases text.len(),
{
    lemma_position(text, '{');
    lemma_position(text, '}');
    if is_plain(text) {
        assert(no_brace(text));
        assert(replacements(text, corpora, draws).len() == 0);
    } else {
        let requirement = Requirement::of_token(token_of(text))->Ok_0;
        let word = requirement.case.apply(corpora.words(requirement.ty)[draws[0]]);
        let before = before_slot(text);
        let after = after_slot(text);
        let tail = expansion(after, corpora, draws.skip(1));
        let later = replacements(after, corpora, draws.skip(1));
        let whole = before + word + tail;
        let all = seq![word] + later;
        lemma_braces_come_from_words(after, corpora, draws.skip(1));
        assert(expansion(text, corpora, draws) == whole);
        assert(replacements(text, corpora, draws) == all);
        assert(no_brace(before));
        if no_brace(whole) {
            assert forall|i: int| 0 <= i < word.len() implies word[i] != '{' && word[i] != '}' by {
                assert(whole[before.len() + i] == word[i]);
            }
            assert forall|i: int| 0 <= i < tail.len() implies tail[i] != '{' && tail[i] != '}' by {
                assert(whole[before.len() + word.len() + i] == tail[i]);
            }
            assert forall|k: int| 0 <= k < all.len() implies no_brace(#[trigger] all[k]) by {
                if k > 0 {
                    assert(all[k] == later[k - 1]);
                }
            }
        }
        if forall|k: int| 0 <= k < all.len() ==> no_brace(#[trigger] all[k]) {
            assert(no_brace(all[0]));
            assert forall|k: int| 0 <= k < later.len() implies no_brace(#[trigger] later[k]) by {
                assert(all[k + 1] == later[k]);
            }
            assert(no_brace(whole));
        }
    }
}

/// The requirement's case is `Pass`, or it is `Capitalise` and every word of
/// the requirement's category is empty or starts with an ASCII character: the
/// cased word is then worked out without `uppercase` and `lowercase`.
pub open spec fn cased_in_ascii(requirement: Requirement, corpora: Corpora) -> bool {
    ||| requirement.case == Case::Pass
    ||| requirement.case == Case::Capitalise && forall|i: int|
        0 <= i < corpora.words(requirement.ty).len() ==> (#[trigger] corpora.words(
            requirement.ty,
        )[i]).len() > 0 ==> is_ascii_char(corpora.words(requirement.ty)[i][0])
}

/// A headline has no brace where no word of the corpora has one, as long as
/// every placeholder is `cased_in_ascii`. Of a word that `uppercase` or
/// `lowercase` made nothing is known, so nothing is said of it here.
pub proof fn lemma_headline_without_brace(text: Seq<char>, corpora: Corpora, draws: Seq<int>)
    requires
        draws_fit(text, corpora, draws),
        forall|ty: RequirementType, i: int|
            0 <= i < corpora.words(ty).len() ==> no_brace(#[trigger] corpora.words(ty)[i]),
        forall|k: int|
            0 <= k < tokens(text).len() ==> (Requirement::of_token(#[trigger] tokens(text)[k])
                matches Ok(requirement) ==> cased_in_ascii(requirement, corpora)),
    ensures
        no_brace(expansion(text, corpora, draws)),
    decreases text.len(),
{
    lemma_position(text, '{');
    lemma_position(text, '}');
    if !is_plain(text) {
        let requirement = Requirement::of_token(token_of(text))->Ok_0;
        let word = corpora.words(requirement.ty)[draws[0]];
        let after = after_slot(text);
        assert(tokens(text)[0] == token_of(text));
        assert forall|k: int| 0 <= k < tokens(after).len() implies (Requirement::of_token(
            #[trigger] tokens(after)[k],
        ) matches Ok(requirement) ==> cased_in_ascii(requirement, corpora)) by {
            assert(tokens(text)[k + 1] == tokens(after)[k]);
        }
        lemma_headline_without_brace(after, corpora, draws.skip(1));
        lemma_own_cases_add_no_brace(requirement.case, word);
        assert(no_brace(before_slot(text)));
    }
}

} // verus!
