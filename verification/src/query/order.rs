//! The order of names: by code point, each once.
use vstd::prelude::*;

use crate::seqs::views;
use crate::storage::model::lists;
use crate::text::{text_before, text_less};

verus! {

broadcast use crate::seqs::group_views;

/// Whether each name comes before the next.
pub open spec fn ascending(s: Seq<Seq<char>>) -> bool {
    forall|i: int, j: int| 0 <= i < j < s.len() ==> text_less(#[trigger] s[i], #[trigger] s[j])
}

/// The members of `set` in ascending order.
pub open spec fn in_order(set: Set<Seq<char>>) -> Seq<Seq<char>> {
    choose|s: Seq<Seq<char>>| lists(s, set) && #[trigger] ascending(s)
}

/// No text comes before itself.
pub proof fn lemma_text_less_irreflexive(a: Seq<char>)
    ensures
        !text_less(a, a),
    decreases a.len(),
{
    if a.len() > 0 {
        lemma_text_less_irreflexive(a.drop_first());
    }
}

/// The order of texts is transitive.
pub proof fn lemma_text_less_transitive(a: Seq<char>, b: Seq<char>, c: Seq<char>)
    requires
        text_less(a, b),
        text_less(b, c),
    ensures
        text_less(a, c),
    decreases a.len(),
{
    if a.len() > 0 && a[0] == b[0] && b[0] == c[0] {
        lemma_text_less_transitive(a.drop_first(), b.drop_first(), c.drop_first());
    }
}

/// Of two different texts, one comes first.
pub proof fn lemma_text_less_total(a: Seq<char>, b: Seq<char>)
    ensures
        a == b || text_less(a, b) || text_less(b, a),
    decreases a.len(),
{
    if a.len() > 0 && b.len() > 0 && a[0] == b[0] {
        lemma_text_less_total(a.drop_first(), b.drop_first());
        if a.drop_first() == b.drop_first() {
            assert(a =~= seq![a[0]] + a.drop_first());
            assert(b =~= seq![b[0]] + b.drop_first());
        }
    } else if a.len() == 0 && b.len() == 0 {
        assert(a =~= b);
    }
}

/// Whether two sequences have the same members.
pub open spec fn same_members(s: Seq<Seq<char>>, t: Seq<Seq<char>>) -> bool {
    forall|x: Seq<char>| #[trigger] s.contains(x) <==> t.contains(x)
}

proof fn lemma_first_is_least(s: Seq<Seq<char>>, x: Seq<char>)
    requires
        ascending(s),
        s.contains(x),
    ensures
        s.len() > 0,
        x == s[0] || text_less(s[0], x),
{
    let i = s.index_of(x);
    assert(s[i] == x);
}

/// There is only one ascending sequence with given members.
pub proof fn lemma_ascending_unique(s: Seq<Seq<char>>, t: Seq<Seq<char>>)
    requires
        ascending(s),
        ascending(t),
        same_members(s, t),
    ensures
        s == t,
    decreases s.len(),
{
    if s.len() == 0 {
        if t.len() > 0 {
            assert(t.contains(t[0]));
            assert(s.contains(t[0]));
        }
        assert(s =~= t);
    } else {
        assert(s.contains(s[0]));
        assert(t.contains(s[0]));
        lemma_first_is_least(t, s[0]);
        assert(t.contains(t[0]));
        assert(s.contains(t[0]));
        lemma_first_is_least(s, t[0]);
        if s[0] != t[0] {
            lemma_text_less_transitive(s[0], t[0], s[0]);
            lemma_text_less_irreflexive(s[0]);
        }
        let a = s.drop_first();
        let b = t.drop_first();
        assert(ascending(a)) by {
            assert forall|i: int, j: int| 0 <= i < j < a.len() implies text_less(
                #[trigger] a[i],
                #[trigger] a[j],
            ) by {
                assert(text_less(s[i + 1], s[j + 1]));
            }
        }
        assert(ascending(b)) by {
            assert forall|i: int, j: int| 0 <= i < j < b.len() implies text_less(
                #[trigger] b[i],
                #[trigger] b[j],
            ) by {
                assert(text_less(t[i + 1], t[j + 1]));
            }
        }
        assert(same_members(a, b)) by {
            assert forall|x: Seq<char>| #[trigger] a.contains(x) <==> b.contains(x) by {
                if a.contains(x) {
                    let i = a.index_of(x);
                    assert(s[i + 1] == x);
                    assert(text_less(s[0], s[i + 1]));
                    lemma_text_less_irreflexive(x);
                    assert(s.contains(x));
                    assert(t.contains(x));
                    let j = t.index_of(x);
                    assert(t[j] == x);
                    assert(j > 0);
                    assert(b[j - 1] == x);
                }
                if b.contains(x) {
                    let i = b.index_of(x);
                    assert(t[i + 1] == x);
                    assert(text_less(t[0], t[i + 1]));
                    lemma_text_less_irreflexive(x);
                    assert(t.contains(x));
                    assert(s.contains(x));
                    let j = s.index_of(x);
                    assert(s[j] == x);
                    assert(j > 0);
                    assert(a[j - 1] == x);
                }
            }
        }
        lemma_ascending_unique(a, b);
        assert(s =~= seq![s[0]] + a);
        assert(t =~= seq![t[0]] + b);
    }
}

proof fn lemma_ascending_distinct(s: Seq<Seq<char>>)
    requires
        ascending(s),
    ensures
        s.no_duplicates(),
{
    assert forall|i: int, j: int| 0 <= i < s.len() && 0 <= j < s.len() && i != j implies s[i]
        != s[j] by {
        lemma_text_less_irreflexive(s[i]);
        if i < j {
            assert(text_less(s[i], s[j]));
        } else {
            assert(text_less(s[j], s[i]));
        }
    }
}

/// A name put in its place keeps a list ascending.
proof fn lemma_inserted(s: Seq<Seq<char>>, at: int, name: Seq<char>)
    requires
        ascending(s),
        0 <= at <= s.len(),
        forall|i: int| 0 <= i < at ==> text_less(#[trigger] s[i], name),
        forall|i: int| at <= i < s.len() ==> text_less(name, #[trigger] s[i]),
    ensures
        ascending(s.insert(at, name)),
        forall|x: Seq<char>| #[trigger]
            s.insert(at, name).contains(x) <==> s.contains(x) || x == name,
{
    let after = s.insert(at, name);
    assert forall|a: int, b: int| 0 <= a < b < after.len() implies text_less(
        #[trigger] after[a],
        #[trigger] after[b],
    ) by {
        let x = if a < at {
            a
        } else {
            a - 1
        };
        let y = if b < at {
            b
        } else {
            b - 1
        };
        if a != at && b != at {
            assert(text_less(s[x], s[y]));
        }
    }
    assert forall|x: Seq<char>| #[trigger] after.contains(x) <==> s.contains(x) || x == name by {
        if after.contains(x) {
            let j = after.index_of(x);
            if j < at {
                assert(s[j] == x);
            } else if j > at {
                assert(s[j - 1] == x);
            }
        }
        if s.contains(x) {
            let j = s.index_of(x);
            if j < at {
                assert(after[j] == x);
            } else {
                assert(after[j + 1] == x);
            }
        }
        assert(after[at] == name);
    }
}

proof fn lemma_pushed(s: Seq<Seq<char>>, name: Seq<char>)
    ensures
        forall|x: Seq<char>| #[trigger] s.push(name).contains(x) <==> s.contains(x) || x == name,
{
    assert forall|x: Seq<char>| #[trigger] s.push(name).contains(x) <==> s.contains(x) || x == name by {
        if s.contains(x) {
            assert(s.push(name)[s.index_of(x)] == x);
        }
        assert(s.push(name)[s.len() as int] == name);
    }
}

/// A name that is not in an ascending list has a place there, at or after
/// `i`.
proof fn lemma_has_place(s: Seq<Seq<char>>, name: Seq<char>, i: int) -> (at: int)
    requires
        ascending(s),
        !s.contains(name),
        0 <= i <= s.len(),
        forall|k: int| 0 <= k < i ==> text_less(#[trigger] s[k], name),
    ensures
        0 <= at <= s.len(),
        forall|k: int| 0 <= k < at ==> text_less(#[trigger] s[k], name),
        forall|k: int| at <= k < s.len() ==> text_less(name, #[trigger] s[k]),
    decreases s.len() - i,
{
    if i < s.len() && text_less(s[i], name) {
        lemma_has_place(s, name, i + 1)
    } else {
        assert forall|k: int| i <= k < s.len() implies text_less(name, #[trigger] s[k]) by {
            assert(s.contains(s[i]));
            lemma_text_less_total(s[i], name);
            if k > i {
                assert(text_less(s[i], s[k]));
                lemma_text_less_transitive(name, s[i], s[k]);
            }
        }
        i
    }
}

proof fn lemma_can_be_ordered(set: Set<Seq<char>>) -> (s: Seq<Seq<char>>)
    requires
        set.finite(),
    ensures
        lists(s, set),
        ascending(s),
    decreases set.len(),
{
    if set.len() == 0 {
        assert(set =~= Set::empty());
        Seq::empty()
    } else {
        let name = set.choose();
        let rest = lemma_can_be_ordered(set.remove(name));
        if rest.contains(name) {
            assert(set.remove(name).contains(name));
        }
        let at = lemma_has_place(rest, name, 0);
        lemma_inserted(rest, at, name);
        let s = rest.insert(at, name);
        lemma_ascending_distinct(s);
        assert forall|x: Seq<char>| s.contains(x) <==> #[trigger] set.contains(x) by {
            assert(s.contains(x) <==> rest.contains(x) || x == name);
            assert(rest.contains(x) <==> set.remove(name).contains(x));
        }
        s
    }
}

/// The members of a finite set stand in ascending order, each once.
pub proof fn lemma_in_order(set: Set<Seq<char>>)
    requires
        set.finite(),
    ensures
        lists(in_order(set), set),
        ascending(in_order(set)),
{
    let s = lemma_can_be_ordered(set);
    assert(lists(s, set) && ascending(s));
}

/// Where `name` belongs in an ascending list that does not hold it.
fn insertion_place(out: &Vec<String>, name: &str) -> (r: usize)
    requires
        ascending(views(out@)),
        !views(out@).contains(name@),
    ensures
        r <= out@.len(),
        forall|i: int| 0 <= i < r ==> text_less((#[trigger] out@[i])@, name@),
        forall|i: int| r <= i < out@.len() ==> text_less(name@, (#[trigger] out@[i])@),
{
    let mut i: usize = 0;
    while i < out.len() && text_before(out[i].as_str(), name)
        invariant
            i <= out@.len(),
            forall|j: int| 0 <= j < i ==> text_less((#[trigger] out@[j])@, name@),
        decreases out@.len() - i,
    {
        i = i + 1;
    }
    proof {
        assert forall|j: int| i <= j < out@.len() implies text_less(name@, (#[trigger] out@[j])@) by {
            let all = views(out@);
            assert(all[i as int] == out@[i as int]@);
            assert(all[j] == out@[j]@);
            assert(all.contains(all[i as int]));
            lemma_text_less_total(all[i as int], name@);
            if j > i {
                assert(text_less(all[i as int], all[j]));
                lemma_text_less_transitive(name@, all[i as int], all[j]);
            }
        }
    }
    i
}

/// The names of a listing, in ascending order.
pub fn sort_names(names: &Vec<String>) -> (r: Vec<String>)
    requires
        views(names@).no_duplicates(),
    ensures
        ascending(views(r@)),
        same_members(views(r@), views(names@)),
        forall|set: Set<Seq<char>>| #[trigger]
            lists(views(names@), set) ==> views(r@) == in_order(set),
{
    let ghost all = views(names@);
    let mut out: Vec<String> = Vec::new();
    let mut i: usize = 0;
    while i < names.len()
        invariant
            i <= names@.len(),
            all == views(names@),
            all.no_duplicates(),
            ascending(views(out@)),
            forall|x: Seq<char>|
                #![trigger views(out@).contains(x)]
                views(out@).contains(x) <==> all.take(i as int).contains(x),
        decreases names@.len() - i,
    {
        let name = names[i].clone();
        let ghost before = views(out@);
        let ghost front = all.take(i as int);
        proof {
            if before.contains(name@) {
                assert(front.contains(name@));
                let j = front.index_of(name@);
                assert(all[j] == all[i as int]);
            }
        }
        let at: usize = insertion_place(&out, name.as_str());
        let ghost listed = out;
        out.insert(at, name);
        proof {
            assert(views(out@) =~= before.insert(at as int, name@));
            assert forall|k: int| 0 <= k < at implies text_less(#[trigger] before[k], name@) by {
                assert(text_less(listed@[k]@, name@));
            }
            assert forall|k: int| at <= k < before.len() implies text_less(
                name@,
                #[trigger] before[k],
            ) by {
                assert(text_less(name@, listed@[k]@));
            }
            lemma_inserted(before, at as int, name@);
            assert(all.take(i + 1) =~= front.push(name@));
            lemma_pushed(front, name@);
        }
        i = i + 1;
    }
    proof {
        let result = views(out@);
        assert(all.take(names@.len() as int) =~= all);
        lemma_ascending_distinct(result);
        assert forall|set: Set<Seq<char>>| #[trigger] lists(all, set) implies result == in_order(
            set,
        ) by {
            assert(lists(result, set)) by {
                assert forall|x: Seq<char>| result.contains(x) <==> #[trigger] set.contains(x) by {
                    assert(result.contains(x) <==> all.contains(x));
                }
            }
            let chosen = in_order(set);
            assert(lists(chosen, set) && ascending(chosen));
            assert(same_members(result, chosen)) by {
                assert forall|x: Seq<char>| #[trigger]
                    result.contains(x) <==> chosen.contains(x) by {
                    assert(set.contains(x) == result.contains(x));
                    assert(set.contains(x) == chosen.contains(x));
                }
            }
            lemma_ascending_unique(result, chosen);
        }
    }
    out
}

} // verus!
