use vstd::prelude::*;

use crate::message::{annih_eq, Message};

verus! {

/// The sort key of the input queue: messages are ordered by receive time.
pub open spec fn rec_key() -> spec_fn(Message) -> int {
    |m: Message| m.rec_time as int
}

/// The sort key of the output queue: messages are ordered by send time.
pub open spec fn send_key() -> spec_fn(Message) -> int {
    |m: Message| m.send_time as int
}

/// The sequence is sorted (non-strictly) by the given key.
pub open spec fn key_sorted(s: Seq<Message>, key: spec_fn(Message) -> int) -> bool {
    forall|i: int, j: int| 0 <= i < j < s.len() ==> key(s[i]) <= key(s[j])
}

/// No two entries annihilate each other: each annihilation-equivalence class
/// has at most one representative present.
pub open spec fn class_unique(s: Seq<Message>) -> bool {
    forall|i: int, j: int| 0 <= i < j < s.len() ==> !annih_eq(s[i], s[j])
}

/// Some entry of the sequence would annihilate with `m`.
pub open spec fn has_equiv(s: Seq<Message>, m: Message) -> bool {
    exists|i: int| 0 <= i < s.len() && annih_eq(s[i], m)
}

/// The index of an entry that would annihilate with `m`; under
/// `class_unique` it is the only one.
pub open spec fn equiv_index(s: Seq<Message>, m: Message) -> int {
    choose|i: int| 0 <= i < s.len() && annih_eq(s[i], m)
}

/// The first index whose key exceeds `t`, or `s.len()` if there is none.
/// On a sorted sequence this is both the insertion point that keeps equal
/// keys in arrival order and the position of the least entry above `t`.
pub open spec fn first_above(s: Seq<Message>, key: spec_fn(Message) -> int, t: int) -> int
    decreases s.len(),
{
    if s.len() == 0 {
        0
    } else if key(s[0]) > t {
        0
    } else {
        1 + first_above(s.skip(1), key, t)
    }
}

/// The annihilating insert: if an equivalent entry is present, it is removed
/// and `m` is dropped; otherwise `m` enters at its sorted position, after any
/// entries of equal key.
pub open spec fn annihilating_insert(
    s: Seq<Message>,
    key: spec_fn(Message) -> int,
    m: Message,
) -> Seq<Message> {
    if has_equiv(s, m) {
        s.remove(equiv_index(s, m))
    } else {
        s.insert(first_above(s, key, key(m)), m)
    }
}

/// How many entries of the sequence lie in `m`'s annihilation-equivalence class.
pub open spec fn count_class(s: Seq<Message>, m: Message) -> nat
    decreases s.len(),
{
    if s.len() == 0 {
        0
    } else {
        count_class(s.skip(1), m) + (if annih_eq(s[0], m) {
            1nat
        } else {
            0nat
        })
    }
}

/// The queue that results from annihilating-inserting a batch of messages,
/// in order, into an empty queue.
pub open spec fn insert_all(key: spec_fn(Message) -> int, ms: Seq<Message>) -> Seq<Message>
    decreases ms.len(),
{
    if ms.len() == 0 {
        Seq::empty()
    } else {
        annihilating_insert(insert_all(key, ms.drop_last()), key, ms.last())
    }
}

pub proof fn lemma_first_above_props(s: Seq<Message>, key: spec_fn(Message) -> int, t: int)
    ensures
        0 <= first_above(s, key, t) <= s.len(),
        forall|j: int| 0 <= j < first_above(s, key, t) ==> key(s[j]) <= t,
        first_above(s, key, t) < s.len() ==> key(s[first_above(s, key, t)]) > t,
    decreases s.len(),
{
    if s.len() == 0 {
    } else if key(s[0]) > t {
    } else {
        lemma_first_above_props(s.skip(1), key, t);
        assert forall|j: int| 0 <= j < first_above(s, key, t) implies key(s[j]) <= t by {
            if j > 0 {
                assert(s.skip(1)[j - 1] == s[j]);
            }
        }
        if first_above(s, key, t) < s.len() {
            assert(s.skip(1)[first_above(s.skip(1), key, t)] == s[first_above(s, key, t)]);
        }
    }
}

/// The recursion above is the unique index with "everything before is at or
/// below `t`, the entry there (if any) is above `t`".
pub proof fn lemma_first_above_unique(
    s: Seq<Message>,
    key: spec_fn(Message) -> int,
    t: int,
    p: int,
)
    requires
        0 <= p <= s.len(),
        forall|j: int| 0 <= j < p ==> key(s[j]) <= t,
        p < s.len() ==> key(s[p]) > t,
    ensures
        first_above(s, key, t) == p,
    decreases s.len(),
{
    if p == 0 {
    } else {
        assert(key(s[0]) <= t);
        assert forall|j: int| 0 <= j < p - 1 implies key(s.skip(1)[j]) <= t by {
            assert(s.skip(1)[j] == s[j + 1]);
        }
        if p - 1 < s.len() - 1 {
            assert(s.skip(1)[p - 1] == s[p]);
        }
        lemma_first_above_unique(s.skip(1), key, t, p - 1);
    }
}

/// Under `class_unique` the chosen equivalent is the only one.
pub proof fn lemma_equiv_index(s: Seq<Message>, m: Message)
    requires
        class_unique(s),
        has_equiv(s, m),
    ensures
        0 <= equiv_index(s, m) < s.len(),
        annih_eq(s[equiv_index(s, m)], m),
        forall|j: int| 0 <= j < s.len() && annih_eq(s[j], m) ==> j == equiv_index(s, m),
{
    let i = equiv_index(s, m);
    assert(0 <= i < s.len() && annih_eq(s[i], m));
    assert forall|j: int| 0 <= j < s.len() && annih_eq(s[j], m) implies j == i by {
        if j < i {
            assert(!annih_eq(s[j], s[i]));
        } else if j > i {
            assert(!annih_eq(s[i], s[j]));
        }
    }
}

/// The annihilating insert keeps the queue sorted and keeps every
/// annihilation class represented at most once.
pub proof fn lemma_annihilating_insert_wf(
    s: Seq<Message>,
    key: spec_fn(Message) -> int,
    m: Message,
)
    requires
        key_sorted(s, key),
        class_unique(s),
    ensures
        key_sorted(annihilating_insert(s, key, m), key),
        class_unique(annihilating_insert(s, key, m)),
{
    let r = annihilating_insert(s, key, m);
    if has_equiv(s, m) {
        lemma_equiv_index(s, m);
        let i = equiv_index(s, m);
        assert(r == s.remove(i));
        assert forall|a: int, b: int| 0 <= a < b < r.len() implies key(r[a]) <= key(r[b])
            && !annih_eq(r[a], r[b]) by {
            let a0 = if a < i { a } else { a + 1 };
            let b0 = if b < i { b } else { b + 1 };
            assert(r[a] == s[a0]);
            assert(r[b] == s[b0]);
        }
    } else {
        let p = first_above(s, key, key(m));
        lemma_first_above_props(s, key, key(m));
        assert(r == s.insert(p, m));
        assert forall|a: int, b: int| 0 <= a < b < r.len() implies key(r[a]) <= key(r[b])
            && !annih_eq(r[a], r[b]) by {
            if a < p {
                assert(r[a] == s[a]);
            } else if a == p {
                assert(r[a] == m);
            } else {
                assert(r[a] == s[a - 1]);
            }
            if b < p {
                assert(r[b] == s[b]);
            } else if b == p {
                assert(r[b] == m);
            } else {
                assert(r[b] == s[b - 1]);
            }
            if b > p && b - 1 >= p {
                assert(key(s[b - 1]) >= key(m)) by {
                    if p < s.len() {
                        assert(key(s[p]) > key(m));
                    }
                }
            }
        }
    }
}

pub proof fn lemma_count_skip_one(s: Seq<Message>, m: Message)
    requires
        s.len() > 0,
    ensures
        count_class(s, m) == count_class(s.skip(1), m) + (if annih_eq(s[0], m) {
            1nat
        } else {
            0nat
        }),
{
}

/// Appending one entry raises the class count of its own class by one and
/// leaves every other class count unchanged.
pub proof fn lemma_count_push(s: Seq<Message>, y: Message, m: Message)
    ensures
        count_class(s.push(y), m) == count_class(s, m) + (if annih_eq(y, m) {
            1nat
        } else {
            0nat
        }),
    decreases s.len(),
{
    if s.len() == 0 {
        assert(s.push(y).skip(1) =~= Seq::<Message>::empty());
        assert(s.push(y)[0] == y);
        lemma_count_skip_one(s.push(y), m);
    } else {
        assert(s.push(y).skip(1) =~= s.skip(1).push(y));
        assert(s.push(y)[0] == s[0]);
        lemma_count_push(s.skip(1), y, m);
        lemma_count_skip_one(s.push(y), m);
        lemma_count_skip_one(s, m);
    }
}

pub proof fn lemma_count_insert(s: Seq<Message>, i: int, y: Message, m: Message)
    requires
        0 <= i <= s.len(),
    ensures
        count_class(s.insert(i, y), m) == count_class(s, m) + (if annih_eq(y, m) {
            1nat
        } else {
            0nat
        }),
    decreases s.len(),
{
    if i == 0 {
        assert(s.insert(0, y).skip(1) =~= s);
        assert(s.insert(0, y)[0] == y);
    } else {
        assert(s.insert(i, y)[0] == s[0]);
        assert(s.insert(i, y).skip(1) =~= s.skip(1).insert(i - 1, y));
        lemma_count_insert(s.skip(1), i - 1, y, m);
    }
}

pub proof fn lemma_count_remove(s: Seq<Message>, i: int, m: Message)
    requires
        0 <= i < s.len(),
    ensures
        count_class(s, m) == count_class(s.remove(i), m) + (if annih_eq(s[i], m) {
            1nat
        } else {
            0nat
        }),
    decreases s.len(),
{
    if i == 0 {
        assert(s.remove(0) =~= s.skip(1));
    } else {
        assert(s.remove(i)[0] == s[0]);
        assert(s.remove(i).skip(1) =~= s.skip(1).remove(i - 1));
        lemma_count_remove(s.skip(1), i - 1, m);
    }
}

/// Under `class_unique` a class is represented exactly once or not at all.
pub proof fn lemma_count_unique(s: Seq<Message>, m: Message)
    requires
        class_unique(s),
    ensures
        count_class(s, m) == (if has_equiv(s, m) {
            1nat
        } else {
            0nat
        }),
    decreases s.len(),
{
    if s.len() == 0 {
    } else {
        let rest = s.skip(1);
        assert forall|a: int, b: int| 0 <= a < b < rest.len() implies !annih_eq(
            rest[a],
            rest[b],
        ) by {
            assert(rest[a] == s[a + 1]);
            assert(rest[b] == s[b + 1]);
        }
        lemma_count_unique(rest, m);
        if annih_eq(s[0], m) {
            assert(!has_equiv(rest, m)) by {
                if has_equiv(rest, m) {
                    let j = choose|j: int| 0 <= j < rest.len() && annih_eq(rest[j], m);
                    assert(rest[j] == s[j + 1]);
                    assert(!annih_eq(s[0], s[j + 1]));
                }
            }
        } else {
            assert(has_equiv(s, m) <==> has_equiv(rest, m)) by {
                if has_equiv(s, m) {
                    let j = choose|j: int| 0 <= j < s.len() && annih_eq(s[j], m);
                    assert(j != 0);
                    assert(rest[j - 1] == s[j]);
                }
                if has_equiv(rest, m) {
                    let j = choose|j: int| 0 <= j < rest.len() && annih_eq(rest[j], m);
                    assert(rest[j] == s[j + 1]);
                }
            }
        }
    }
}

/// One annihilating insert flips the presence of the inserted message's class
/// and leaves every other class count unchanged.
pub proof fn lemma_annihilating_insert_count(
    s: Seq<Message>,
    key: spec_fn(Message) -> int,
    m: Message,
    x: Message,
)
    requires
        class_unique(s),
    ensures
        count_class(annihilating_insert(s, key, m), x) as int == (if annih_eq(x, m) {
            (count_class(s, x) as int + 1) % 2
        } else {
            count_class(s, x) as int
        }),
{
    lemma_count_unique(s, x);
    if has_equiv(s, m) {
        lemma_equiv_index(s, m);
        let i = equiv_index(s, m);
        lemma_count_remove(s, i, x);
        if annih_eq(x, m) {
            assert(annih_eq(s[i], x));
            assert(has_equiv(s, x));
        } else {
            assert(!annih_eq(s[i], x));
        }
    } else {
        let p = first_above(s, key, key(m));
        lemma_first_above_props(s, key, key(m));
        lemma_count_insert(s, p, m, x);
        if annih_eq(x, m) {
            assert(!has_equiv(s, x)) by {
                if has_equiv(s, x) {
                    let j = choose|j: int| 0 <= j < s.len() && annih_eq(s[j], x);
                    assert(annih_eq(s[j], m));
                }
            }
        }
    }
}

/// When a predicate holds exactly on an index interval, filtering keeps
/// exactly that block.
pub proof fn lemma_filter_interval(
    s: Seq<Message>,
    pred: spec_fn(Message) -> bool,
    a: int,
    b: int,
)
    requires
        0 <= a <= b <= s.len(),
        forall|i: int| 0 <= i < s.len() ==> (pred(#[trigger] s[i]) <==> a <= i < b),
    ensures
        s.filter(pred) == s.subrange(a, b),
    decreases s.len(),
{
    reveal(Seq::filter);
    if s.len() == 0 {
        assert(s.filter(pred) =~= s.subrange(a, b));
    } else {
        let d = s.drop_last();
        let x = s.last();
        if b == s.len() && a < b {
            assert(pred(x));
            assert forall|i: int| 0 <= i < d.len() implies (pred(#[trigger] d[i]) <==> a <= i < b
                - 1) by {
                assert(d[i] == s[i]);
            }
            lemma_filter_interval(d, pred, a, b - 1);
            assert(d.subrange(a, b - 1) =~= s.subrange(a, b - 1));
            assert(s.subrange(a, b) =~= s.subrange(a, b - 1).push(x));
        } else {
            assert(!pred(x));
            let a2 = if a <= s.len() - 1 {
                a
            } else {
                s.len() - 1
            };
            let b2 = if b <= s.len() - 1 {
                b
            } else {
                s.len() - 1
            };
            assert forall|i: int| 0 <= i < d.len() implies (pred(#[trigger] d[i]) <==> a2 <= i
                < b2) by {
                assert(d[i] == s[i]);
            }
            lemma_filter_interval(d, pred, a2, b2);
            assert(d.subrange(a2, b2) =~= s.subrange(a, b));
        }
    }
}

/// When a predicate fails exactly on an index interval, filtering keeps
/// exactly what lies on either side of that block.
pub proof fn lemma_filter_outside_interval(
    s: Seq<Message>,
    pred: spec_fn(Message) -> bool,
    a: int,
    b: int,
)
    requires
        0 <= a <= b <= s.len(),
        forall|i: int| 0 <= i < s.len() ==> (pred(#[trigger] s[i]) <==> !(a <= i < b)),
    ensures
        s.filter(pred) == s.subrange(0, a) + s.subrange(b, s.len() as int),
    decreases s.len(),
{
    reveal(Seq::filter);
    if s.len() == 0 {
        assert(s.filter(pred) =~= s.subrange(0, a) + s.subrange(b, s.len() as int));
    } else {
        let d = s.drop_last();
        let x = s.last();
        if b == s.len() && a < b {
            assert(!pred(x));
            assert forall|i: int| 0 <= i < d.len() implies (pred(#[trigger] d[i]) <==> !(a <= i
                < d.len())) by {
                assert(d[i] == s[i]);
            }
            lemma_filter_outside_interval(d, pred, a, d.len() as int);
            assert(d.subrange(0, a) =~= s.subrange(0, a));
            assert(d.subrange(d.len() as int, d.len() as int) =~= s.subrange(b, s.len() as int));
        } else {
            assert(pred(x));
            let a2 = if a <= s.len() - 1 {
                a
            } else {
                s.len() - 1
            };
            let b2 = if b <= s.len() - 1 {
                b
            } else {
                s.len() - 1
            };
            assert forall|i: int| 0 <= i < d.len() implies (pred(#[trigger] d[i]) <==> !(a2 <= i
                < b2)) by {
                assert(d[i] == s[i]);
            }
            lemma_filter_outside_interval(d, pred, a2, b2);
            assert(s.filter(pred) == d.filter(pred).push(x));
            if a == b {
                assert(d.filter(pred).push(x) =~= s.subrange(0, a) + s.subrange(
                    b,
                    s.len() as int,
                ));
            } else {
                assert(b < s.len());
                assert(d.subrange(0, a2) =~= s.subrange(0, a));
                assert(d.filter(pred).push(x) =~= s.subrange(0, a) + s.subrange(
                    b,
                    s.len() as int,
                ));
            }
        }
    }
}

pub proof fn lemma_insert_all_wf(key: spec_fn(Message) -> int, ms: Seq<Message>)
    ensures
        key_sorted(insert_all(key, ms), key),
        class_unique(insert_all(key, ms)),
    decreases ms.len(),
{
    if ms.len() == 0 {
    } else {
        lemma_insert_all_wf(key, ms.drop_last());
        lemma_annihilating_insert_wf(insert_all(key, ms.drop_last()), key, ms.last());
    }
}

/// The annihilation law: run any batch of messages through the annihilating
/// insert, starting from an empty queue. Pairs of equivalents cancel, so a
/// class is present in the final queue exactly when the batch holds an odd
/// number of its members — the queue retains precisely the unpaired
/// singletons, one per odd class.
pub proof fn lemma_annihilation(key: spec_fn(Message) -> int, ms: Seq<Message>)
    ensures
        forall|x: Message| #[trigger] count_class(insert_all(key, ms), x) == count_class(ms, x)
            % 2,
        class_unique(insert_all(key, ms)),
        key_sorted(insert_all(key, ms), key),
    decreases ms.len(),
{
    lemma_insert_all_wf(key, ms);
    if ms.len() == 0 {
    } else {
        lemma_annihilation(key, ms.drop_last());
        lemma_insert_all_wf(key, ms.drop_last());
        assert forall|x: Message| #[trigger] count_class(insert_all(key, ms), x) == count_class(
            ms,
            x,
        ) % 2 by {
            lemma_annihilating_insert_count(insert_all(key, ms.drop_last()), key, ms.last(), x);
            assert(ms =~= ms.drop_last().push(ms.last()));
            lemma_count_push(ms.drop_last(), ms.last(), x);
        }
    }
}

} // verus!
