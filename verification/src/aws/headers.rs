//! Request headers, kept in the order of their names.
use crate::text::{
    before, is_before, lemma_before_irreflexive, lemma_before_total, lemma_before_transitive,
    pair_texts, same,
};
use vstd::prelude::*;
use vstd::string::*;

verus! {

/// A set of request headers, each with one value, in the order of their names.
pub struct Headers {
    pub entries: Vec<(String, String)>,
}

/// The names are in strictly ascending order.
pub open spec fn ascending(names: Seq<Seq<char>>) -> bool {
    forall|i: int, j: int| 0 <= i < j < names.len() ==> #[trigger] before(names[i], names[j])
}

/// The names of a list of headers.
pub open spec fn names_of(list: Seq<(Seq<char>, Seq<char>)>) -> Seq<Seq<char>> {
    list.map_values(|p: (Seq<char>, Seq<char>)| p.0)
}

/// The value that a list of headers gives each name; a later header wins over an earlier one.
pub open spec fn map_of(list: Seq<(Seq<char>, Seq<char>)>) -> Map<Seq<char>, Seq<char>>
    decreases list.len(),
{
    if list.len() == 0 {
        Map::empty()
    } else {
        map_of(list.drop_last()).insert(list.last().0, list.last().1)
    }
}

/// The names of `m` in ascending order.
pub open spec fn sorted_names(m: Map<Seq<char>, Seq<char>>) -> Seq<Seq<char>> {
    choose|names: Seq<Seq<char>>| ascending(names) && names.to_set() == m.dom()
}

impl View for Headers {
    type V = Map<Seq<char>, Seq<char>>;

    open spec fn view(&self) -> Map<Seq<char>, Seq<char>> {
        map_of(pair_texts(self.entries@))
    }
}

/// A name is given a value exactly where the list has it; where no name occurs twice, that value
/// is the one beside it.
proof fn lemma_map_of(list: Seq<(Seq<char>, Seq<char>)>)
    requires
        ascending(names_of(list)),
    ensures
        forall|k: Seq<char>| #[trigger]
            map_of(list).contains_key(k) <==> names_of(list).contains(k),
        forall|i: int|
            0 <= i < list.len() ==> #[trigger] map_of(list)[names_of(list)[i]] == list[i].1,
        map_of(list).dom() == names_of(list).to_set(),
    decreases list.len(),
{
    let names = names_of(list);
    if list.len() > 0 {
        let init = list.drop_last();
        assert(names_of(init) == names.drop_last());
        assert(ascending(names_of(init))) by {
            assert forall|i: int, j: int| 0 <= i < j < names_of(init).len() implies #[trigger] before(
                names_of(init)[i],
                names_of(init)[j],
            ) by {
                assert(before(names[i], names[j]));
            }
        }
        lemma_map_of(init);
        let last = list.last().0;
        assert(names[list.len() - 1] == last);
        assert forall|k: Seq<char>| #[trigger]
            map_of(list).contains_key(k) <==> names.contains(k) by {
            if map_of(list).contains_key(k) && k != last {
                assert(names_of(init).contains(k));
                let i = choose|i: int| 0 <= i < names_of(init).len() && names_of(init)[i] == k;
                assert(names[i] == k);
            }
            if names.contains(k) && k != last {
                let i = choose|i: int| 0 <= i < names.len() && names[i] == k;
                assert(names_of(init)[i] == k);
                assert(map_of(init).contains_key(k));
            }
        }
        assert forall|i: int| 0 <= i < list.len() implies #[trigger] map_of(list)[names[i]]
            == list[i].1 by {
            if i < list.len() - 1 {
                assert(before(names[i], names[list.len() - 1]));
                lemma_before_irreflexive(last);
                assert(names[i] != last);
                assert(names_of(init)[i] == names[i]);
                assert(map_of(init)[names_of(init)[i]] == init[i].1);
            }
        }
    }
    assert(map_of(list).dom() =~= names.to_set());
}

/// Two lists of names in ascending order that hold the same names are the same.
pub proof fn lemma_ascending_unique(a: Seq<Seq<char>>, b: Seq<Seq<char>>)
    requires
        ascending(a),
        ascending(b),
        a.to_set() == b.to_set(),
    ensures
        a == b,
    decreases a.len(),
{
    if a.len() == 0 {
        if b.len() > 0 {
            assert(b.to_set().contains(b[0]));
            assert(a.contains(b[0]));
        }
        assert(a == b);
    } else {
        assert(a.to_set().contains(a[0]));
        assert(b.contains(a[0]));
        let i = choose|i: int| 0 <= i < b.len() && b[i] == a[0];
        assert(b.to_set().contains(b[0]));
        assert(a.contains(b[0]));
        let j = choose|j: int| 0 <= j < a.len() && a[j] == b[0];
        if i > 0 {
            assert(before(b[0], b[i]));
            lemma_before_irreflexive(a[0]);
            assert(j > 0);
            assert(before(a[0], a[j]));
            lemma_before_total(a[0], b[0]);
        }
        assert(a[0] == b[0]);
        let x = a.drop_first();
        let y = b.drop_first();
        assert(ascending(x)) by {
            assert forall|i: int, j: int| 0 <= i < j < x.len() implies #[trigger] before(x[i], x[j]) by {
                assert(before(a[i + 1], a[j + 1]));
            }
        }
        assert(ascending(y)) by {
            assert forall|i: int, j: int| 0 <= i < j < y.len() implies #[trigger] before(y[i], y[j]) by {
                assert(before(b[i + 1], b[j + 1]));
            }
        }
        assert(x.to_set() =~= y.to_set()) by {
            assert forall|k: Seq<char>| x.contains(k) <==> y.contains(k) by {
                lemma_rest_contains(a, k);
                lemma_rest_contains(b, k);
                assert(a.contains(k) == a.to_set().contains(k));
                assert(b.contains(k) == b.to_set().contains(k));
            }
        }
        lemma_ascending_unique(x, y);
        assert(a == seq![a[0]] + x);
        assert(b == seq![b[0]] + y);
    }
}

/// Of a list in ascending order, what follows the first name holds all the others.
proof fn lemma_rest_contains(a: Seq<Seq<char>>, k: Seq<char>)
    requires
        a.len() > 0,
        ascending(a),
    ensures
        a.drop_first().contains(k) <==> a.contains(k) && k != a[0],
{
    let x = a.drop_first();
    if x.contains(k) {
        let i = choose|i: int| 0 <= i < x.len() && x[i] == k;
        assert(a[i + 1] == k);
        assert(before(a[0], a[i + 1]));
        lemma_before_irreflexive(k);
    }
    if a.contains(k) && k != a[0] {
        let i = choose|i: int| 0 <= i < a.len() && a[i] == k;
        assert(x[i - 1] == k);
    }
}

impl Headers {
    /// The entries are in the order of their names, and no name occurs twice.
    pub open spec fn well_formed(&self) -> bool {
        ascending(names_of(pair_texts(self.entries@)))
    }

    /// No headers.
    pub fn new() -> (r: Headers)
        ensures
            r.well_formed(),
            r@ == Map::<Seq<char>, Seq<char>>::empty(),
    {
        Headers { entries: Vec::new() }
    }

    /// The entries stand in the order of the names of the map.
    pub proof fn lemma_sorted(&self)
        requires
            self.well_formed(),
        ensures
            names_of(pair_texts(self.entries@)) == sorted_names(self@),
            forall|i: int|
                0 <= i < self.entries@.len() ==> self@[#[trigger] self.entries@[i].0@]
                    == self.entries@[i].1@,
    {
        let list = pair_texts(self.entries@);
        lemma_map_of(list);
        lemma_ascending_unique(names_of(list), sorted_names(self@));
        assert forall|i: int| 0 <= i < self.entries@.len() implies self@[#[trigger] self.entries@[i].0@]
            == self.entries@[i].1@ by {
            assert(names_of(list)[i] == self.entries@[i].0@);
        }
    }

    /// Gives the header `name` the value `value`, in place of the value it had.
    pub fn insert(&mut self, name: String, value: String)
        requires
            old(self).well_formed(),
        ensures
            final(self).well_formed(),
            final(self)@ == old(self)@.insert(name@, value@),
    {
        let ghost list = pair_texts(self.entries@);
        let ghost names = names_of(list);
        let ghost k = name@;
        let ghost v = value@;
        let mut i: usize = 0;
        while i < self.entries.len() && is_before(self.entries[i].0.as_str(), name.as_str())
            invariant
                i <= self.entries@.len(),
                *self == *old(self),
                list == pair_texts(self.entries@),
                names == names_of(list),
                k == name@,
                ascending(names),
                forall|j: int| 0 <= j < i ==> before(#[trigger] names[j], k),
            decreases self.entries@.len() - i,
        {
            assert(names[i as int] == self.entries@[i as int].0@);
            i += 1;
        }
        proof {
            lemma_map_of(list);
        }
        if i < self.entries.len() && same(self.entries[i].0.as_str(), name.as_str()) {
            self.entries.set(i, (name, value));
            let ghost now = pair_texts(self.entries@);
            assert(names[i as int] == k);
            assert(now == list.update(i as int, (k, v)));
            assert(names_of(now) == names);
            proof {
                lemma_map_of(now);
                lemma_same_map(list, now, i as int, k, v);
            }
        } else {
            self.entries.insert(i, (name, value));
            let ghost now = pair_texts(self.entries@);
            assert(now == list.insert(i as int, (k, v)));
            proof {
                lemma_inserted(list, now, i as int, k, v);
            }
        }
    }
}

/// Two lists that differ in the value of one name have maps that differ there.
proof fn lemma_same_map(
    list: Seq<(Seq<char>, Seq<char>)>,
    now: Seq<(Seq<char>, Seq<char>)>,
    i: int,
    k: Seq<char>,
    v: Seq<char>,
)
    requires
        ascending(names_of(list)),
        0 <= i < list.len(),
        list[i].0 == k,
        now == list.update(i, (k, v)),
        names_of(now) == names_of(list),
    ensures
        map_of(now) == map_of(list).insert(k, v),
{
    lemma_map_of(list);
    lemma_map_of(now);
    let names = names_of(list);
    assert(names[i] == k);
    assert(map_of(now)[names_of(now)[i]] == v);
    assert(map_of(now).dom() =~= map_of(list).insert(k, v).dom());
    assert forall|x: Seq<char>| map_of(now).contains_key(x) implies #[trigger] map_of(now)[x]
        == map_of(list).insert(k, v)[x] by {
        if x != k {
            assert(names.contains(x));
            let j = choose|j: int| 0 <= j < names.len() && names[j] == x;
            assert(map_of(now)[names_of(now)[j]] == now[j].1);
            assert(map_of(list)[names[j]] == list[j].1);
        }
    }
    assert(map_of(now) =~= map_of(list).insert(k, v));
}

/// A new name put where it belongs keeps the order, and adds the name to the map.
proof fn lemma_inserted(
    list: Seq<(Seq<char>, Seq<char>)>,
    now: Seq<(Seq<char>, Seq<char>)>,
    i: int,
    k: Seq<char>,
    v: Seq<char>,
)
    requires
        ascending(names_of(list)),
        0 <= i <= list.len(),
        now == list.insert(i, (k, v)),
        forall|j: int| 0 <= j < i ==> before(#[trigger] names_of(list)[j], k),
        i < list.len() ==> !before(list[i].0, k) && list[i].0 != k,
    ensures
        ascending(names_of(now)),
        map_of(now) == map_of(list).insert(k, v),
{
    let names = names_of(list);
    let after = names_of(now);
    assert(after == names.insert(i, k));
    assert forall|j: int| i <= j < names.len() implies before(k, #[trigger] names[j]) by {
        assert(names[i] == list[i].0);
        lemma_before_total(list[i].0, k);
        if j > i {
            assert(before(names[i], names[j]));
            lemma_before_transitive(k, names[i], names[j]);
        }
    }
    assert forall|a: int, b: int| 0 <= a < b < after.len() implies #[trigger] before(
        after[a],
        after[b],
    ) by {
        let x = if a < i {
            a
        } else {
            a - 1
        };
        let y = if b < i {
            b
        } else {
            b - 1
        };
        if a != i {
            assert(after[a] == names[x]);
        }
        if b != i {
            assert(after[b] == names[y]);
        }
        if a != i && b != i {
            assert(before(names[x], names[y]));
        } else if a == i {
            assert(before(k, names[y]));
        } else {
            assert(before(names[x], k));
        }
    }
    lemma_map_of(list);
    lemma_map_of(now);
    assert(after[i] == k);
    assert forall|x: Seq<char>| after.contains(x) <==> (x == k || names.contains(x)) by {
        if after.contains(x) && x != k {
            let j = choose|j: int| 0 <= j < after.len() && after[j] == x;
            assert(names[if j < i {
                j
            } else {
                j - 1
            }] == x);
        }
        if names.contains(x) {
            let j = choose|j: int| 0 <= j < names.len() && names[j] == x;
            assert(after[if j < i {
                j
            } else {
                j + 1
            }] == x);
        }
    }
    assert(map_of(now).dom() =~= map_of(list).insert(k, v).dom());
    assert forall|x: Seq<char>| map_of(now).contains_key(x) implies #[trigger] map_of(now)[x]
        == map_of(list).insert(k, v)[x] by {
        if x == k {
            assert(map_of(now)[after[i]] == now[i].1);
        } else {
            assert(names.contains(x));
            let j = choose|j: int| 0 <= j < names.len() && names[j] == x;
            assert(map_of(list)[names[j]] == list[j].1);
            let m = if j < i {
                j
            } else {
                j + 1
            };
            assert(after[m] == x);
            assert(map_of(now)[after[m]] == now[m].1);
        }
    }
    assert(map_of(now) =~= map_of(list).insert(k, v));
}


/// There is a place for a new name in a list in ascending order.
proof fn lemma_place(names: Seq<Seq<char>>, k: Seq<char>) -> (i: int)
    requires
        ascending(names),
        !names.contains(k),
    ensures
        0 <= i <= names.len(),
        forall|j: int| 0 <= j < i ==> before(#[trigger] names[j], k),
        forall|j: int| i <= j < names.len() ==> before(k, #[trigger] names[j]),
    decreases names.len(),
{
    if names.len() == 0 {
        0
    } else {
        let init = names.drop_last();
        let last = names.last();
        assert(names[names.len() - 1] == last);
        lemma_before_total(last, k);
        if before(last, k) {
            assert forall|j: int| 0 <= j < names.len() implies before(#[trigger] names[j], k) by {
                if j < names.len() - 1 {
                    assert(before(names[j], names[names.len() - 1]));
                    lemma_before_transitive(names[j], last, k);
                }
            }
            names.len() as int
        } else {
            assert(ascending(init)) by {
                assert forall|i: int, j: int| 0 <= i < j < init.len() implies #[trigger] before(
                    init[i],
                    init[j],
                ) by {
                    assert(before(names[i], names[j]));
                }
            }
            assert(!init.contains(k)) by {
                if init.contains(k) {
                    let i = choose|i: int| 0 <= i < init.len() && init[i] == k;
                    assert(names[i] == k);
                }
            }
            let i = lemma_place(init, k);
            assert forall|j: int| 0 <= j < i implies before(#[trigger] names[j], k) by {
                assert(init[j] == names[j]);
            }
            assert forall|j: int| i <= j < names.len() implies before(k, #[trigger] names[j]) by {
                if j < names.len() - 1 {
                    assert(init[j] == names[j]);
                }
            }
            i
        }
    }
}

/// The names of a finite map can be put in ascending order.
pub proof fn lemma_sorted_names(m: Map<Seq<char>, Seq<char>>)
    requires
        m.dom().finite(),
    ensures
        ascending(sorted_names(m)),
        sorted_names(m).to_set() == m.dom(),
{
    let names = lemma_names_exist(m.dom());
    assert(ascending(names) && names.to_set() == m.dom());
}

proof fn lemma_names_exist(s: Set<Seq<char>>) -> (names: Seq<Seq<char>>)
    requires
        s.finite(),
    ensures
        ascending(names),
        names.to_set() == s,
    decreases s.len(),
{
    if s.len() == 0 {
        let names = Seq::<Seq<char>>::empty();
        assert(s =~= Set::empty());
        assert(names.to_set() =~= s);
        names
    } else {
        let k = s.choose();
        let rest = lemma_names_exist(s.remove(k));
        assert(!rest.contains(k)) by {
            if rest.contains(k) {
                assert(rest.to_set().contains(k));
            }
        }
        let i = lemma_place(rest, k);
        let names = rest.insert(i, k);
        assert forall|a: int, b: int| 0 <= a < b < names.len() implies #[trigger] before(
            names[a],
            names[b],
        ) by {
            let x = if a < i {
                a
            } else {
                a - 1
            };
            let y = if b < i {
                b
            } else {
                b - 1
            };
            if a != i && b != i {
                assert(before(rest[x], rest[y]));
            } else if a == i {
                assert(before(k, rest[y]));
            } else {
                assert(before(rest[x], k));
            }
        }
        assert forall|x: Seq<char>| names.contains(x) <==> s.contains(x) by {
            if names.contains(x) && x != k {
                let j = choose|j: int| 0 <= j < names.len() && names[j] == x;
                assert(rest[if j < i {
                    j
                } else {
                    j - 1
                }] == x);
                assert(rest.to_set().contains(x));
            }
            if s.contains(x) {
                if x == k {
                    assert(names[i] == k);
                } else {
                    assert(rest.to_set().contains(x));
                    let j = choose|j: int| 0 <= j < rest.len() && rest[j] == x;
                    assert(names[if j < i {
                        j
                    } else {
                        j + 1
                    }] == x);
                }
            }
        }
        assert(names.to_set() =~= s);
        names
    }
}

}
