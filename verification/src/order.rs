//! The order of texts, by code point, and lists kept in it.

use vstd::prelude::*;

use crate::text::{characters, texts};

verus! {

/// Whether `left` comes strictly before `right`: compared by code point, a
/// proper beginning first.
pub open spec fn precedes(left: Seq<char>, right: Seq<char>) -> bool
    decreases left.len(),
{
    if right.len() == 0 {
        false
    } else if left.len() == 0 {
        true
    } else {
        ||| left[0] < right[0]
        ||| left[0] == right[0] && precedes(left.skip(1), right.skip(1))
    }
}

/// No text precedes itself.
pub proof fn lemma_irreflexive(text: Seq<char>)
    ensures
        !precedes(text, text),
    decreases text.len(),
{
    if text.len() > 0 {
        lemma_irreflexive(text.skip(1));
    }
}

/// `precedes` is transitive.
pub proof fn lemma_transitive(a: Seq<char>, b: Seq<char>, c: Seq<char>)
    requires
        precedes(a, b),
        precedes(b, c),
    ensures
        precedes(a, c),
    decreases a.len(),
{
    if a.len() > 0 && a[0] == b[0] && b[0] == c[0] {
        lemma_transitive(a.skip(1), b.skip(1), c.skip(1));
    }
}

/// Of two different texts one precedes the other.
pub proof fn lemma_total(a: Seq<char>, b: Seq<char>)
    ensures
        precedes(a, b) || a == b || precedes(b, a),
    decreases a.len(),
{
    if a.len() == 0 || b.len() == 0 {
        if a.len() == 0 && b.len() == 0 {
            assert(a == b);
        }
    } else if a[0] == b[0] {
        lemma_total(a.skip(1), b.skip(1));
        if a.skip(1) == b.skip(1) {
            assert(a == seq![a[0]] + a.skip(1));
            assert(b == seq![b[0]] + b.skip(1));
        }
    }
}

/// Decides `precedes`.
pub fn text_precedes(left: &str, right: &str) -> (result: bool)
    ensures
        result == precedes(left@, right@),
{
    let a = characters(left);
    let b = characters(right);
    let mut i: usize = 0;
    assert(left@.skip(0) == left@);
    assert(right@.skip(0) == right@);
    while i < a.len() && i < b.len() && a[i] == b[i]
        invariant
            a@ == left@,
            b@ == right@,
            i <= a@.len(),
            i <= b@.len(),
            precedes(left@, right@) == precedes(left@.skip(i as int), right@.skip(i as int)),
        decreases a@.len() - i,
    {
        assert(left@.skip(i as int).skip(1) == left@.skip(i + 1));
        assert(right@.skip(i as int).skip(1) == right@.skip(i + 1));
        proof {
            lemma_irreflexive(left@.skip(i as int));
        }
        i = i + 1;
    }
    if i == b.len() {
        false
    } else if i == a.len() {
        true
    } else {
        a[i] < b[i]
    }
}

/// Each text strictly before the next: the order of the keys of a sorted map.
pub open spec fn ascending(list: Seq<Seq<char>>) -> bool {
    forall|i: int, j: int|
        0 <= i < j < list.len() ==> precedes(#[trigger] list[i], #[trigger] list[j])
}

/// No text before the one it follows: the order of a sorted list.
pub open spec fn sorted(list: Seq<Seq<char>>) -> bool {
    forall|i: int, j: int|
        0 <= i < j < list.len() ==> !precedes(#[trigger] list[j], #[trigger] list[i])
}

/// Sorts a list of names. The names stay the same, as often as they occur.
pub fn sort_names(names: Vec<String>) -> (result: Vec<String>)
    ensures
        sorted(texts(result@)),
        texts(result@).to_multiset() == texts(names@).to_multiset(),
{
    let mut result: Vec<String> = Vec::new();
    let mut i: usize = 0;
    assert(texts(names@.take(0)) == texts(result@));
    while i < names.len()
        invariant
            i <= names@.len(),
            sorted(texts(result@)),
            texts(result@).to_multiset() == texts(names@.take(i as int)).to_multiset(),
        decreases names@.len() - i,
    {
        let ghost before = texts(result@);
        let name = names[i].clone();
        let mut at: usize = result.len();
        while at > 0 && text_precedes(name.as_str(), result[at - 1].as_str())
            invariant
                before == texts(result@),
                at <= result@.len(),
                forall|k: int| at <= k < result@.len() ==> precedes(name@, #[trigger] before[k]),
            decreases at,
        {
            at = at - 1;
        }
        let ghost text = name@;
        result.insert(at, name);
        proof {
            assert(texts(result@) == before.insert(at as int, text));
            lemma_inserted_multiset(before, at as int, text);
            assert(names@.take(i + 1) == names@.take(i as int).push(names@[i as int]));
            assert(texts(names@.take(i + 1)) == texts(names@.take(i as int)).push(text));
            vstd::seq_lib::to_multiset_build(texts(names@.take(i as int)), text);
            lemma_inserted_sorted(before, at as int, text);
        }
        i = i + 1;
    }
    assert(names@.take(names@.len() as int) == names@);
    result
}

/// Inserting a text anywhere adds exactly that text.
proof fn lemma_inserted_multiset(list: Seq<Seq<char>>, at: int, text: Seq<char>)
    requires
        0 <= at <= list.len(),
    ensures
        list.insert(at, text).to_multiset() == list.to_multiset().insert(text),
{
    let longer = list.insert(at, text);
    assert(longer.remove(at) == list);
    vstd::seq_lib::to_multiset_remove(longer, at);
    longer.to_multiset_ensures();
    assert(longer.contains(longer[at]));
    assert(longer.to_multiset() =~= list.to_multiset().insert(text));
}

/// Inserting behind everything that does not come after keeps a list sorted.
proof fn lemma_inserted_sorted(list: Seq<Seq<char>>, at: int, text: Seq<char>)
    requires
        sorted(list),
        0 <= at <= list.len(),
        at > 0 ==> !precedes(text, list[at - 1]),
        forall|k: int| at <= k < list.len() ==> precedes(text, #[trigger] list[k]),
    ensures
        sorted(list.insert(at, text)),
{
    let longer = list.insert(at, text);
    assert forall|i: int, j: int| 0 <= i < j < longer.len() implies !precedes(
        #[trigger] longer[j],
        #[trigger] longer[i],
    ) by {
        let left = if i < at {
            i
        } else {
            i - 1
        };
        let right = if j < at {
            j
        } else {
            j - 1
        };
        if i == at {
            assert(longer[j] == list[right]);
            if precedes(list[right], text) {
                lemma_transitive(list[right], text, list[right]);
                lemma_irreflexive(list[right]);
            }
        } else if j == at {
            assert(longer[i] == list[left]);
            if precedes(text, list[left]) {
                lemma_total(list[left], list[at - 1]);
                if precedes(list[left], list[at - 1]) {
                    lemma_transitive(text, list[left], list[at - 1]);
                } else if left != at - 1 {
                    assert(!precedes(list[at - 1], list[left]));
                }
            }
        } else {
            assert(longer[i] == list[left]);
            assert(longer[j] == list[right]);
        }
    }
}

/// One text comes before another exactly if they agree up to some position at
/// which the first one ends and the other goes on, or holds the smaller code
/// point.
pub proof fn law_order_is_by_the_first_difference(left: Seq<char>, right: Seq<char>)
    ensures
        precedes(left, right) <==> exists|at: int|
            #![trigger left.take(at)]
            {
                &&& 0 <= at <= left.len()
                &&& at < right.len()
                &&& left.take(at) == right.take(at)
                &&& at == left.len() || (left[at] as int) < right[at] as int
            },
    decreases left.len(),
{
    let differs = |l: Seq<char>, r: Seq<char>, at: int|
        {
            &&& 0 <= at <= l.len()
            &&& at < r.len()
            &&& l.take(at) == r.take(at)
            &&& at == l.len() || (l[at] as int) < r[at] as int
        };
    if left.len() > 0 && right.len() > 0 && left[0] == right[0] {
        let l = left.skip(1);
        let r = right.skip(1);
        law_order_is_by_the_first_difference(l, r);
        if precedes(left, right) {
            let at = choose|at: int|
                #![trigger l.take(at)]
                {
                    &&& 0 <= at <= l.len()
                    &&& at < r.len()
                    &&& l.take(at) == r.take(at)
                    &&& at == l.len() || (l[at] as int) < r[at] as int
                };
            assert forall|k: int| 0 <= k < at + 1 implies left[k] == right[k] by {
                if k > 0 {
                    assert(left[k] == l.take(at)[k - 1]);
                    assert(right[k] == r.take(at)[k - 1]);
                }
            }
            assert(left.take(at + 1) == right.take(at + 1));
        }
        if exists|at: int| #![trigger left.take(at)] differs(left, right, at) {
            let at = choose|at: int| #![trigger left.take(at)] differs(left, right, at);
            assert(at > 0);
            assert forall|k: int| 0 <= k < at - 1 implies l[k] == r[k] by {
                assert(l[k] == left.take(at)[k + 1]);
                assert(r[k] == right.take(at)[k + 1]);
            }
            assert(l.take(at - 1) == r.take(at - 1));
        }
    } else {
        assert(left.take(0) == right.take(0));
        if exists|at: int| #![trigger left.take(at)] differs(left, right, at) {
            let at = choose|at: int| #![trigger left.take(at)] differs(left, right, at);
            if at > 0 {
                assert(left.take(at)[0] == right.take(at)[0]);
            }
        }
    }
}

}
