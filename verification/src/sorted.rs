//! Lists of strings kept in strictly ascending lexicographic order.

use crate::strings::views;
use vstd::prelude::*;

verus! {

/// Whether `a` comes before `b` in lexicographic order by code point: at the
/// first place where they differ `a` holds the smaller character, or `a` ends
/// there and `b` goes on.
pub open spec fn lex_less(a: Seq<char>, b: Seq<char>) -> bool
    decreases a.len(),
{
    if b.len() == 0 {
        false
    } else if a.len() == 0 {
        true
    } else if a[0] == b[0] {
        lex_less(a.drop_first(), b.drop_first())
    } else {
        (a[0] as u32) < (b[0] as u32)
    }
}

/// Each item comes before every later one, so no item occurs twice.
pub open spec fn strictly_sorted(list: Seq<Seq<char>>) -> bool {
    forall|i: int, j: int| 0 <= i < j < list.len() ==> lex_less(list[i], list[j])
}

/// Nothing comes before itself.
pub proof fn lemma_lex_irreflexive(a: Seq<char>)
    ensures
        !lex_less(a, a),
    decreases a.len(),
{
    if a.len() > 0 {
        lemma_lex_irreflexive(a.drop_first());
    }
}

/// What comes before something that comes before a third comes before the
/// third.
pub proof fn lemma_lex_transitive(a: Seq<char>, b: Seq<char>, c: Seq<char>)
    requires
        lex_less(a, b),
        lex_less(b, c),
    ensures
        lex_less(a, c),
    decreases a.len(),
{
    if a.len() > 0 && a[0] == b[0] && b[0] == c[0] {
        lemma_lex_transitive(a.drop_first(), b.drop_first(), c.drop_first());
    }
}

/// Of two different strings one comes before the other.
pub proof fn lemma_lex_total(a: Seq<char>, b: Seq<char>)
    ensures
        a == b || lex_less(a, b) || lex_less(b, a),
    decreases a.len(),
{
    if a.len() > 0 && b.len() > 0 && a[0] == b[0] {
        lemma_lex_total(a.drop_first(), b.drop_first());
        if a.drop_first() == b.drop_first() {
            assert(a =~= seq![a[0]] + a.drop_first());
            assert(b =~= seq![b[0]] + b.drop_first());
        }
    } else if a.len() == 0 && b.len() == 0 {
        assert(a =~= b);
    } else if a.len() > 0 && b.len() > 0 {
        vstd::utf8::char_u32_cast(a[0], a[0] as u32);
        vstd::utf8::char_u32_cast(b[0], b[0] as u32);
    }
}

/// Two strings never come before each other.
pub proof fn lemma_lex_asymmetric(a: Seq<char>, b: Seq<char>)
    requires
        lex_less(a, b),
    ensures
        !lex_less(b, a),
{
    if lex_less(b, a) {
        lemma_lex_transitive(a, b, a);
        lemma_lex_irreflexive(a);
    }
}

/// A strictly sorted list holds no item twice.
pub proof fn lemma_no_duplicates(list: Seq<Seq<char>>)
    requires
        strictly_sorted(list),
    ensures
        list.no_duplicates(),
{
    assert forall|i: int, j: int| 0 <= i < list.len() && 0 <= j < list.len() && i != j implies list[i]
        != list[j] by {
        lemma_lex_irreflexive(list[i]);
        if i < j {
            assert(lex_less(list[i], list[j]));
        } else {
            assert(lex_less(list[j], list[i]));
        }
    }
}

/// In a strictly sorted list every item after the first comes after it, and
/// the rest is strictly sorted too.
pub proof fn lemma_sorted_rest(list: Seq<Seq<char>>)
    requires
        strictly_sorted(list),
        list.len() > 0,
    ensures
        strictly_sorted(list.drop_first()),
        !list.drop_first().contains(list[0]),
        forall|s: Seq<char>| list.contains(s) <==> (s == list[0] || list.drop_first().contains(s)),
{
    let rest = list.drop_first();
    assert forall|i: int, j: int| 0 <= i < j < rest.len() implies lex_less(rest[i], rest[j]) by {
        assert(rest[i] == list[i + 1] && rest[j] == list[j + 1]);
    }
    if rest.contains(list[0]) {
        let k = choose|k: int| 0 <= k < rest.len() && rest[k] == list[0];
        assert(lex_less(list[0], list[k + 1]));
        lemma_lex_irreflexive(list[0]);
    }
    assert forall|s: Seq<char>| list.contains(s) <==> (s == list[0] || rest.contains(s)) by {
        if list.contains(s) {
            let k = choose|k: int| 0 <= k < list.len() && list[k] == s;
            if k > 0 {
                assert(rest[k - 1] == s);
            }
        }
        if rest.contains(s) {
            let k = choose|k: int| 0 <= k < rest.len() && rest[k] == s;
            assert(list[k + 1] == s);
        }
        if s == list[0] {
            assert(list[0] == s);
        }
    }
}

/// Two strictly sorted lists that hold the same items are the same list: the
/// items decide the list.
pub proof fn lemma_sorted_unique(a: Seq<Seq<char>>, b: Seq<Seq<char>>)
    requires
        strictly_sorted(a),
        strictly_sorted(b),
        forall|s: Seq<char>| a.contains(s) <==> b.contains(s),
    ensures
        a == b,
    decreases a.len(),
{
    if a.len() == 0 {
        if b.len() > 0 {
            assert(b.contains(b[0]));
        }
        assert(a =~= b);
    } else {
        assert(a.contains(a[0]));
        assert(b.contains(a[0]));
        let k = choose|k: int| 0 <= k < b.len() && b[k] == a[0];
        assert(b.contains(b[0]));
        let m = choose|m: int| 0 <= m < a.len() && a[m] == b[0];
        if k > 0 {
            assert(lex_less(b[0], b[k]));
            if m > 0 {
                assert(lex_less(a[0], a[m]));
                lemma_lex_asymmetric(a[0], b[0]);
            } else {
                lemma_lex_irreflexive(a[0]);
            }
        }
        assert(a[0] == b[0]);
        lemma_sorted_rest(a);
        lemma_sorted_rest(b);
        assert forall|s: Seq<char>| a.drop_first().contains(s) <==> b.drop_first().contains(s) by {
            if a.drop_first().contains(s) {
                assert(a.contains(s));
                assert(b.contains(s));
            }
            if b.drop_first().contains(s) {
                assert(b.contains(s));
                assert(a.contains(s));
            }
        }
        lemma_sorted_unique(a.drop_first(), b.drop_first());
        assert(a =~= seq![a[0]] + a.drop_first());
        assert(b =~= seq![b[0]] + b.drop_first());
    }
}

/// `str`'s `<` of std, which its documentation gives as the lexicographic
/// order of the two strings by their bytes and, what is the same in UTF-8, by
/// their code points.
#[verifier::external_body]
fn str_less(a: &str, b: &str) -> (less: bool)
    ensures
        less == lex_less(a@, b@),
{
    a < b
}

/// Puts `item` into a strictly sorted list at its place, unless the list
/// holds it already.
pub fn insert_sorted(list: &mut Vec<String>, item: String)
    requires
        strictly_sorted(views(old(list)@)),
    ensures
        strictly_sorted(views(final(list)@)),
        views(final(list)@).to_set() == views(old(list)@).to_set().insert(item@),
        views(old(list)@).contains(item@) ==> views(final(list)@) == views(old(list)@),
        !views(old(list)@).contains(item@) ==> final(list).len() == old(list).len() + 1,
{
    let ghost before = views(list@);
    let mut at: usize = 0;
    while at < list.len() && str_less(list[at].as_str(), item.as_str())
        invariant
            at <= list.len(),
            list@ == old(list)@,
            before == views(list@),
            forall|j: int| 0 <= j < at ==> lex_less(#[trigger] before[j], item@),
        decreases list.len() - at,
    {
        at = at + 1;
    }
    assert forall|j: int| at <= j < before.len() implies !lex_less(#[trigger] before[j], item@) by {
        if j > at && lex_less(before[j], item@) {
            lemma_lex_transitive(before[at as int], before[j], item@);
        }
    }
    assert forall|j: int| 0 <= j < at implies before[j] != item@ by {
        lemma_lex_irreflexive(item@);
    }
    if at < list.len() && list[at] == item {
        assert(before[at as int] == item@);
        assert(before.contains(item@));
        assert(before.to_set() =~= before.to_set().insert(item@));
        return;
    }
    assert forall|j: int| at <= j < before.len() implies lex_less(item@, #[trigger] before[j]) by {
        lemma_lex_total(item@, before[at as int]);
        if j > at {
            lemma_lex_transitive(item@, before[at as int], before[j]);
        }
    }
    assert(!before.contains(item@)) by {
        if before.contains(item@) {
            let j = choose|j: int| 0 <= j < before.len() && before[j] == item@;
            lemma_lex_irreflexive(item@);
        }
    }
    list.insert(at, item);
    let ghost after = views(list@);
    assert(after =~= before.insert(at as int, item@));
    assert forall|i: int, j: int| 0 <= i < j < after.len() implies lex_less(after[i], after[j]) by {
        if i < at && at < j {
            lemma_lex_transitive(after[i], item@, after[j]);
        }
    }
    assert(after.to_set() =~= before.to_set().insert(item@)) by {
        assert forall|s: Seq<char>| after.contains(s) <==> (before.contains(s) || s == item@) by {
            if after.contains(s) {
                let k = choose|k: int| 0 <= k < after.len() && after[k] == s;
                if k < at {
                    assert(before[k] == s);
                } else if k > at {
                    assert(before[k - 1] == s);
                }
            }
            if before.contains(s) {
                let k = choose|k: int| 0 <= k < before.len() && before[k] == s;
                if k < at {
                    assert(after[k] == s);
                } else {
                    assert(after[k + 1] == s);
                }
            }
            if s == item@ {
                assert(after[at as int] == s);
            }
        }
    }
}

} // verus!
