use vstd::prelude::*;

use crate::models::{SearchResult, SearchResultHierarchy};
use crate::text::{chars_of, decode_html_text, decoded_html, ellipsis, truncate, truncated};

verus! {

/// Breadcrumbs longer than this many scalars are cut for display.
pub const BREADCRUMB_MAX_LENGTH: usize = 75;

/// The separator between breadcrumb parts: ` > `.
pub open spec fn breadcrumb_separator() -> Seq<char> {
    seq![' ', '>', ' ']
}

/// `parts` joined with `separator` between neighbours.
pub open spec fn join_with(parts: Seq<Seq<char>>, separator: Seq<char>) -> Seq<char>
    decreases parts.len(),
{
    if parts.len() == 0 {
        Seq::empty()
    } else if parts.len() == 1 {
        parts[0]
    } else {
        join_with(parts.drop_last(), separator) + separator + parts.last()
    }
}

/// `parts` without the values equal to `excluded`, in order.
pub open spec fn without(parts: Seq<Seq<char>>, excluded: Seq<char>) -> Seq<Seq<char>>
    decreases parts.len(),
{
    if parts.len() == 0 {
        Seq::empty()
    } else if parts.last() == excluded {
        without(parts.drop_last(), excluded)
    } else {
        without(parts.drop_last(), excluded).push(parts.last())
    }
}

/// The breadcrumb of a result before decoding: its present hierarchy values
/// other than `title`, joined with ` > `.
pub open spec fn raw_breadcrumb(hierarchy: SearchResultHierarchy, title: Seq<char>) -> Seq<char> {
    join_with(without(hierarchy.present_values(), title), breadcrumb_separator())
}

/// The decoded breadcrumb of a result for the raw title `title`.
pub open spec fn full_breadcrumb(result: SearchResult, title: Seq<char>) -> Seq<char> {
    decoded_html(raw_breadcrumb(result.hierarchy, title))
}

/// The breadcrumb as displayed: the decoded breadcrumb cut to `BREADCRUMB_MAX_LENGTH`.
pub open spec fn display_breadcrumb(result: SearchResult, title: Seq<char>) -> Seq<char> {
    truncated(full_breadcrumb(result, title), BREADCRUMB_MAX_LENGTH as nat)
}

/// Joining puts the separator between neighbours and nowhere else: no parts
/// give nothing, one part gives itself, and one more part after at least one
/// adds the separator and that part at the end.
pub proof fn law_join_appends_separator_and_part(parts: Seq<Seq<char>>, part: Seq<char>, separator: Seq<char>)
    ensures
        join_with(Seq::<Seq<char>>::empty(), separator) == Seq::<char>::empty(),
        join_with(seq![part], separator) == part,
        parts.len() >= 1 ==> join_with(parts.push(part), separator) == join_with(parts, separator) + separator + part,
{
    assert(parts.push(part).drop_last() =~= parts);
}

/// The joined length: every part once, and one separator between each two.
pub proof fn law_join_length(parts: Seq<Seq<char>>, separator: Seq<char>)
    ensures
        parts.len() >= 1 ==> join_with(parts, separator).len()
            == parts.fold_left(0int, |n: int, p: Seq<char>| n + p.len()) + (parts.len() - 1) * separator.len(),
    decreases parts.len(),
{
    let f = |n: int, p: Seq<char>| n + p.len();
    if parts.len() >= 2 {
        law_join_length(parts.drop_last(), separator);
        let n = parts.len() as int;
        let l = separator.len() as int;
        assert((n - 1) * l == (n - 2) * l + l) by (nonlinear_arith);
        assert(parts.fold_left(0int, f) == f(parts.drop_last().fold_left(0int, f), parts.last()));
    }
    if parts.len() == 1 {
        assert(parts.drop_last() =~= Seq::<Seq<char>>::empty());
        assert(parts.drop_last().fold_left(0int, f) == 0);
        assert(parts.fold_left(0int, f) == f(parts.drop_last().fold_left(0int, f), parts.last()));
    }
}

/// Leaving out a value keeps every other value, in order: it is the filter of
/// the values unequal to it.
pub proof fn law_without_keeps_others_in_order(parts: Seq<Seq<char>>, excluded: Seq<char>)
    ensures
        without(parts, excluded) == parts.filter(|v: Seq<char>| v != excluded),
    decreases parts.len(),
{
    reveal(Seq::filter);
    if parts.len() > 0 {
        law_without_keeps_others_in_order(parts.drop_last(), excluded);
    } else {
        assert(parts.filter(|v: Seq<char>| v != excluded) =~= Seq::<Seq<char>>::empty());
    }
}

/// A displayed breadcrumb never runs past `BREADCRUMB_MAX_LENGTH` scalars; one
/// that had to be cut fills exactly that length and ends with the ellipsis.
pub proof fn law_displayed_breadcrumb_fits(result: SearchResult, title: Seq<char>)
    ensures
        display_breadcrumb(result, title).len() <= BREADCRUMB_MAX_LENGTH,
        full_breadcrumb(result, title).len() > BREADCRUMB_MAX_LENGTH ==> {
            let shown = display_breadcrumb(result, title);
            &&& shown.len() == BREADCRUMB_MAX_LENGTH
            &&& shown.skip(shown.len() - 3) =~= ellipsis()
            &&& shown.take(shown.len() - 3) =~= full_breadcrumb(result, title).take(BREADCRUMB_MAX_LENGTH - 3)
        },
{
}

/// Whether two texts are equal.
pub fn text_eq(a: &str, b: &str) -> (res: bool)
    ensures
        res == (a@ == b@),
{
    let x = chars_of(a);
    let y = chars_of(b);
    if x.len() != y.len() {
        return false;
    }
    let mut i: usize = 0;
    while i < x.len()
        invariant
            x@ == a@,
            y@ == b@,
            x@.len() == y@.len(),
            i <= x@.len(),
            forall|j: int| 0 <= j < i ==> x@[j] == y@[j],
        decreases x.len() - i,
    {
        if x[i] != y[i] {
            return false;
        }
        i = i + 1;
    }
    proof {
        assert(a@ =~= b@);
    }
    true
}

/// The decoded breadcrumb of `result` for its raw title `title`: the present
/// hierarchy values other than `title`, joined with ` > `, then decoded.
pub fn decoded_breadcrumb(result: &SearchResult, title: &str) -> (res: String)
    ensures
        res@ == full_breadcrumb(*result, title@),
{
    let values = result.hierarchy.values();
    let ghost present = result.hierarchy.present_values();
    let mut raw = String::new();
    let mut kept: usize = 0;
    let mut i: usize = 0;
    proof {
        reveal_strlit(" > ");
        assert(present.take(0) =~= Seq::<Seq<char>>::empty());
    }
    while i < values.len()
        invariant
            values@.len() == present.len(),
            forall|j: int| 0 <= j < values@.len() ==> #[trigger] values@[j]@ == present[j],
            i <= values@.len(),
            kept <= i,
            kept == without(present.take(i as int), title@).len(),
            raw@ == join_with(without(present.take(i as int), title@), breadcrumb_separator()),
        decreases values.len() - i,
    {
        let value = values[i];
        let ghost before = without(present.take(i as int), title@);
        proof {
            reveal_strlit(" > ");
            assert(present.take(i + 1).drop_last() =~= present.take(i as int));
            assert(present.take(i + 1).last() == value@);
        }
        if !text_eq(value, title) {
            if kept > 0 {
                raw.append(" > ");
            }
            raw.append(value);
            proof {
                let after = before.push(value@);
                assert(without(present.take(i + 1), title@) == after);
                assert(after.drop_last() =~= before);
                if before.len() == 0 {
                    assert(raw@ =~= join_with(after, breadcrumb_separator()));
                } else {
                    assert(raw@ =~= join_with(after, breadcrumb_separator()));
                }
            }
            kept = kept + 1;
        } else {
            proof {
                assert(without(present.take(i + 1), title@) == before);
            }
        }
        i = i + 1;
    }
    proof {
        assert(present.take(values@.len() as int) =~= present);
    }
    decode_html_text(raw.as_str())
}

/// The breadcrumb shown under a title: the decoded breadcrumb cut to
/// `BREADCRUMB_MAX_LENGTH` scalars.
pub fn breadcrumb(result: &SearchResult, title: &str) -> (res: String)
    ensures
        res@ == display_breadcrumb(*result, title@),
        res@.len() <= BREADCRUMB_MAX_LENGTH,
        full_breadcrumb(*result, title@).len() > BREADCRUMB_MAX_LENGTH ==> res@.len() == BREADCRUMB_MAX_LENGTH
            && res@.skip(res@.len() - 3) == ellipsis(),
{
    let full = decoded_breadcrumb(result, title);
    truncate(full.as_str(), BREADCRUMB_MAX_LENGTH)
}

} // verus!
