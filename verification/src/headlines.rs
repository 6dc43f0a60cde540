//! Headlines in number: a template picked at random and filled in, again and
//! again, each distinct headline kept once.

use crate::corpus::{words_of, Corpora, CorpusSet};
use crate::error::SubstituteError;
use crate::random::draw_index;
use crate::requirement::RequirementType;
use crate::template::{
    after_slot, can_yield, draws_fit, expansion, first_defect, is_plain, substitute,
};
use rand::rngs::StdRng;
use vstd::prelude::*;

verus! {

/// `attempts` without repetitions: every text stands where it was first seen.
pub open spec fn first_seen(attempts: Seq<Seq<char>>) -> Seq<Seq<char>>
    decreases attempts.len(),
{
    if attempts.len() == 0 {
        Seq::empty()
    } else {
        let earlier = first_seen(attempts.drop_last());
        if earlier.contains(attempts.last()) {
            earlier
        } else {
            earlier.push(attempts.last())
        }
    }
}

/// `headline` is what one of `templates` can expand to.
pub open spec fn any_can_yield(
    templates: Seq<Seq<char>>,
    corpora: Corpora,
    headline: Seq<char>,
) -> bool {
    exists|k: int| 0 <= k < templates.len() && can_yield(#[trigger] templates[k], corpora, headline)
}

/// One of `templates` has `e` as its first defect.
pub open spec fn any_fails_with(
    templates: Seq<Seq<char>>,
    corpora: Corpora,
    e: SubstituteError,
) -> bool {
    exists|k: int|
        0 <= k < templates.len() && first_defect(#[trigger] templates[k], corpora) == Some(e)
}

/// Nothing occurs twice in `first_seen(attempts)`, it is no longer than
/// `attempts`, and it holds the same texts.
pub proof fn lemma_first_seen(attempts: Seq<Seq<char>>)
    ensures
        first_seen(attempts).no_duplicates(),
        first_seen(attempts).len() <= attempts.len(),
        forall|text: Seq<char>| #[trigger]
            first_seen(attempts).contains(text) <==> attempts.contains(text),
    decreases attempts.len(),
{
    if attempts.len() > 0 {
        let before = attempts.drop_last();
        let earlier = first_seen(before);
        let last = attempts.last();
        lemma_first_seen(before);
        assert forall|text: Seq<char>| first_seen(attempts).contains(text) implies attempts.contains(
            text,
        ) by {
            let i = choose|i: int| 0 <= i < first_seen(attempts).len() && first_seen(attempts)[i] == text;
            if i < earlier.len() {
                assert(earlier[i] == text);
                assert(earlier.contains(text));
                let j = choose|j: int| 0 <= j < before.len() && before[j] == text;
                assert(attempts[j] == text);
            } else {
                assert(attempts[attempts.len() - 1] == text);
            }
        }
        assert forall|text: Seq<char>| attempts.contains(text) implies first_seen(attempts).contains(
            text,
        ) by {
            let j = choose|j: int| 0 <= j < attempts.len() && attempts[j] == text;
            if j < before.len() {
                assert(before[j] == text);
                assert(before.contains(text));
                assert(earlier.contains(text));
            }
            if earlier.contains(text) {
                let i = choose|i: int| 0 <= i < earlier.len() && earlier[i] == text;
                assert(first_seen(attempts)[i] == text);
            } else {
                assert(first_seen(attempts)[earlier.len() as int] == text);
            }
        }
    }
}

/// Where all attempts are the same text, at most one is kept.
pub proof fn lemma_first_seen_of_one(attempts: Seq<Seq<char>>)
    requires
        forall|i: int, j: int|
            0 <= i < attempts.len() && 0 <= j < attempts.len() ==> attempts[i] == attempts[j],
    ensures
        first_seen(attempts).len() <= 1,
    decreases attempts.len(),
{
    if attempts.len() > 0 {
        let before = attempts.drop_last();
        assert forall|i: int, j: int|
            0 <= i < before.len() && 0 <= j < before.len() implies before[i] == before[j] by {
            assert(before[i] == attempts[i] && before[j] == attempts[j]);
        }
        lemma_first_seen_of_one(before);
        lemma_first_seen(before);
        if before.len() > 0 {
            assert(before[0] == attempts.last());
            assert(before.contains(attempts.last()));
            assert(first_seen(before).contains(attempts.last()));
        }
    }
}

/// Where no category has more than one word, the draws that fit a template are
/// the same whoever makes them, and so is the headline.
pub proof fn lemma_single_words_one_headline(
    text: Seq<char>,
    corpora: Corpora,
    a: Seq<int>,
    b: Seq<int>,
)
    requires
        forall|ty: RequirementType| corpora.words(ty).len() <= 1,
        draws_fit(text, corpora, a),
        draws_fit(text, corpora, b),
    ensures
        a == b,
        expansion(text, corpora, a) == expansion(text, corpora, b),
    decreases text.len(),
{
    if is_plain(text) {
        assert(a =~= b);
    } else {
        lemma_single_words_one_headline(after_slot(text), corpora, a.skip(1), b.skip(1));
        assert(a[0] == 0 && b[0] == 0);
        assert(a =~= seq![a[0]] + a.skip(1));
        assert(b =~= seq![b[0]] + b.skip(1));
    }
}

/// Whether `headline` is among `kept`.
fn is_kept(kept: &Vec<String>, headline: &String) -> (found: bool)
    ensures
        found == words_of(kept@).contains(headline@),
{
    let mut i: usize = 0;
    while i < kept.len()
        invariant
            i <= kept.len(),
            forall|j: int| 0 <= j < i ==> words_of(kept@)[j] != headline@,
        decreases kept.len() - i,
    {
        if kept[i] == *headline {
            assert(words_of(kept@)[i as int] == headline@);
            return true;
        }
        i = i + 1;
    }
    false
}

/// One headline: a template picked at random from `templates`, filled in.
pub fn generate(templates: &Vec<String>, corpora: &CorpusSet, rng: &mut StdRng) -> (result: Result<
    String,
    SubstituteError,
>)
    requires
        templates.len() > 0,
    ensures
        match result {
            Ok(headline) => any_can_yield(words_of(templates@), corpora@, headline@),
            Err(e) => any_fails_with(words_of(templates@), corpora@, e),
        },
{
    let pick = draw_index(rng, templates.len());
    assert(words_of(templates@)[pick as int] == templates@[pick as int]@);
    substitute(templates[pick].as_str(), corpora, rng)
}

/// Makes `iterations` headlines, one after the other, and returns the distinct
/// ones in the order in which they first came up. The first headline that
/// cannot be made ends the run with its defect.
pub fn run(
    templates: &Vec<String>,
    corpora: &CorpusSet,
    iterations: usize,
    rng: &mut StdRng,
) -> (result: Result<Vec<String>, SubstituteError>)
    requires
        iterations == 0 || templates.len() > 0,
    ensures
        match result {
            Ok(headlines) => exists|attempts: Seq<Seq<char>>|
                {
                    &&& attempts.len() == iterations
                    &&& forall|i: int|
                        0 <= i < attempts.len() ==> any_can_yield(
                            words_of(templates@),
                            corpora@,
                            #[trigger] attempts[i],
                        )
                    &&& words_of(headlines@) == #[trigger] first_seen(attempts)
                },
            Err(e) => iterations > 0 && any_fails_with(words_of(templates@), corpora@, e),
        },
        iterations == 0 ==> (result matches Ok(headlines) && headlines.len() == 0),
        result matches Ok(headlines) ==> headlines.len() <= iterations && words_of(
            headlines@,
        ).no_duplicates(),
        templates.len() == 1 && (forall|ty: RequirementType| corpora@.words(ty).len() <= 1) ==> (
        result matches Ok(headlines) ==> headlines.len() <= 1),
{
    let mut headlines: Vec<String> = Vec::new();
    let ghost mut attempts: Seq<Seq<char>> = Seq::empty();
    let mut made: usize = 0;
    assert(words_of(headlines@) =~= first_seen(attempts));
    while made < iterations
        invariant
            made <= iterations,
            iterations == 0 || templates.len() > 0,
            attempts.len() == made,
            forall|i: int|
                0 <= i < attempts.len() ==> any_can_yield(
                    words_of(templates@),
                    corpora@,
                    #[trigger] attempts[i],
                ),
            words_of(headlines@) == first_seen(attempts),
        decreases iterations - made,
    {
        let headline = match generate(templates, corpora, rng) {
            Ok(headline) => headline,
            Err(e) => {
                return Err(e);
            },
        };
        let ghost earlier = attempts;
        proof {
            attempts = attempts.push(headline@);
            assert(attempts.drop_last() =~= earlier);
        }
        if !is_kept(&headlines, &headline) {
            headlines.push(headline);
            assert(words_of(headlines@) =~= first_seen(earlier).push(headline@));
        }
        made = made + 1;
    }
    proof {
        lemma_first_seen(attempts);
        if templates.len() == 1 && (forall|ty: RequirementType| corpora@.words(ty).len() <= 1) {
            let text = words_of(templates@)[0];
            assert forall|i: int, j: int|
                0 <= i < attempts.len() && 0 <= j < attempts.len() implies attempts[i]
                == attempts[j] by {
                assert(can_yield(text, corpora@, attempts[i]));
                assert(can_yield(text, corpora@, attempts[j]));
                let a = choose|a: Seq<int>| #[trigger]
                    draws_fit(text, corpora@, a) && attempts[i] == expansion(text, corpora@, a);
                let b = choose|b: Seq<int>| #[trigger]
                    draws_fit(text, corpora@, b) && attempts[j] == expansion(text, corpora@, b);
                lemma_single_words_one_headline(text, corpora@, a, b);
            }
            lemma_first_seen_of_one(attempts);
        }
    }
    Ok(headlines)
}

} // verus!
