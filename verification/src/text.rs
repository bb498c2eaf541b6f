//! Texts made of parts, for the diagnostic output of the boards.

use vstd::prelude::*;
use vstd::string::StringExecFns;

verus! {

/// The parts one after another, with the separator between each two.
pub open spec fn joined(parts: Seq<Seq<char>>, separator: Seq<char>) -> Seq<char>
    decreases parts.len(),
{
    if parts.len() == 0 {
        Seq::empty()
    } else if parts.len() == 1 {
        parts[0]
    } else {
        joined(parts.drop_last(), separator) + separator + parts.last()
    }
}

/// The texts of a vector of strings.
pub open spec fn texts(parts: Seq<String>) -> Seq<Seq<char>> {
    parts.map_values(|part: String| part@)
}

/// Joins the parts into one text, with the separator between each two.
pub fn join(parts: &Vec<String>, separator: &str) -> (r: String)
    ensures
        r@ == joined(texts(parts@), separator@),
{
    let mut result = String::new();
    let mut i: usize = 0;
    while i < parts.len()
        invariant
            i <= parts.len(),
            result@ == joined(texts(parts@.take(i as int)), separator@),
        decreases parts.len() - i,
    {
        proof {
            let before = texts(parts@.take(i as int));
            let now = texts(parts@.take(i + 1));
            assert(now.drop_last() =~= before);
            assert(now.last() == parts@[i as int]@);
            if i == 0 {
                assert(result@ + parts@[i as int]@ =~= parts@[i as int]@);
            }
        }
        if i > 0 {
            result.append(separator);
        }
        result.append(parts[i].as_str());
        i += 1;
    }
    proof {
        assert(parts@.take(i as int) =~= parts@);
    }
    result
}

/// Whether the places `at` show where `whole` holds the characters of `part`
/// one after another: place `k` lies in `whole` and holds character `k` of
/// `part`, and each place lies after the one before.
pub open spec fn found_at(whole: Seq<char>, part: Seq<char>, at: Seq<int>) -> bool {
    &&& at.len() == part.len()
    &&& forall|k: int| 0 <= k < at.len() ==> 0 <= #[trigger] at[k] < whole.len()
    &&& forall|k: int| 0 <= k < at.len() ==> whole[#[trigger] at[k]] == part[k]
    &&& forall|j: int, k: int| 0 <= j < k < at.len() ==> #[trigger] at[j] < #[trigger] at[k]
}

/// Whether `whole` holds all the characters of `part` in their order, with
/// any other characters before, between and after them.
pub open spec fn holds_in_order(whole: Seq<char>, part: Seq<char>) -> bool {
    exists|at: Seq<int>| found_at(whole, part, at)
}

/// What holds a text that holds another holds that other too.
pub proof fn lemma_holds_through(whole: Seq<char>, middle: Seq<char>, part: Seq<char>)
    requires
        holds_in_order(whole, middle),
        holds_in_order(middle, part),
    ensures
        holds_in_order(whole, part),
{
    let outer = choose|at: Seq<int>| found_at(whole, middle, at);
    let inner = choose|at: Seq<int>| found_at(middle, part, at);
    let at = Seq::new(part.len(), |k: int| outer[inner[k]]);
    assert forall|j: int, k: int| 0 <= j < k < at.len() implies #[trigger] at[j]
        < #[trigger] at[k] by {
        assert(inner[j] < inner[k]);
    }
    assert(found_at(whole, part, at));
}

/// A text between two others holds in order what its middle holds, between
/// the same two.
pub proof fn lemma_holds_between(
    before: Seq<char>,
    whole: Seq<char>,
    part: Seq<char>,
    after: Seq<char>,
)
    requires
        holds_in_order(whole, part),
    ensures
        holds_in_order(before + whole + after, before + part + after),
{
    let inner = choose|at: Seq<int>| found_at(whole, part, at);
    let wide = before + whole + after;
    let narrow = before + part + after;
    let at = Seq::new(
        narrow.len(),
        |k: int|
            if k < before.len() {
                k
            } else if k < before.len() + part.len() {
                before.len() + inner[k - before.len()]
            } else {
                k - part.len() + whole.len()
            },
    );
    assert forall|k: int| 0 <= k < at.len() implies 0 <= #[trigger] at[k] < wide.len()
        && wide[at[k]] == narrow[k] by {
        if before.len() <= k < before.len() + part.len() {
            assert(0 <= inner[k - before.len()] < whole.len());
        }
    }
    assert forall|j: int, k: int| 0 <= j < k < at.len() implies #[trigger] at[j]
        < #[trigger] at[k] by {
        if before.len() <= j < before.len() + part.len() {
            assert(0 <= inner[j - before.len()] < whole.len());
        }
        if before.len() <= k < before.len() + part.len() {
            assert(0 <= inner[k - before.len()] < whole.len());
        }
        if before.len() <= j && k < before.len() + part.len() {
            assert(inner[j - before.len()] < inner[k - before.len()]);
        }
    }
    assert(found_at(wide, narrow, at));
}

} // verus!
