//! Values under names.
use vstd::prelude::*;

use crate::text::same_text;

verus! {

/// A value and its name.
pub struct NamedValue<T> {
    pub name: String,
    pub value: T,
}

/// Values under names, in the order in which the names came.
pub struct TextMap<T> {
    pub entries: Vec<NamedValue<T>>,
}

/// The names and values of a map.
pub open spec fn named_views<T: View>(entries: Seq<NamedValue<T>>) -> Seq<(Seq<char>, T::V)> {
    entries.map_values(|e: NamedValue<T>| (e.name@, e.value@))
}

impl<T: View> View for TextMap<T> {
    type V = Seq<(Seq<char>, T::V)>;

    open spec fn view(&self) -> Seq<(Seq<char>, T::V)> {
        named_views(self.entries@)
    }
}

/// Whether no name occurs twice.
pub open spec fn distinct_names<V>(map: Seq<(Seq<char>, V)>) -> bool {
    forall|i: int, j: int|
        0 <= i < j < map.len() ==> (#[trigger] map[i]).0 != (#[trigger] map[j]).0
}

/// The value under `name`.
pub open spec fn value_at<V>(map: Seq<(Seq<char>, V)>, name: Seq<char>) -> Option<V>
    decreases map.len(),
{
    if map.len() == 0 {
        None
    } else if map[0].0 == name {
        Some(map[0].1)
    } else {
        value_at(map.skip(1), name)
    }
}

/// `map` with `value` under `name`, in place of what was there, or at the end.
pub open spec fn with_value<V>(map: Seq<(Seq<char>, V)>, name: Seq<char>, value: V) -> Seq<
    (Seq<char>, V),
>
    decreases map.len(),
{
    if map.len() == 0 {
        seq![(name, value)]
    } else if map[0].0 == name {
        seq![(name, value)] + map.skip(1)
    } else {
        seq![map[0]] + with_value(map.skip(1), name, value)
    }
}

/// `map` without what is under `name`.
pub open spec fn without_value<V>(map: Seq<(Seq<char>, V)>, name: Seq<char>) -> Seq<(Seq<char>, V)>
    decreases map.len(),
{
    if map.len() == 0 {
        map
    } else if map[0].0 == name {
        map.skip(1)
    } else {
        seq![map[0]] + without_value(map.skip(1), name)
    }
}

proof fn lemma_no_value<V>(map: Seq<(Seq<char>, V)>, name: Seq<char>)
    requires
        forall|i: int| 0 <= i < map.len() ==> (#[trigger] map[i]).0 != name,
    ensures
        value_at(map, name) is None,
    decreases map.len(),
{
    if map.len() > 0 {
        let rest = map.skip(1);
        assert forall|i: int| 0 <= i < rest.len() implies (#[trigger] rest[i]).0 != name by {
            assert(rest[i] == map[i + 1]);
        }
        lemma_no_value(rest, name);
    }
}

/// Putting a value under a name: it is there, every other name has the value it had, and
/// no name comes to occur twice.
pub proof fn law_with_value<V>(map: Seq<(Seq<char>, V)>, name: Seq<char>, value: V)
    requires
        distinct_names(map),
    ensures
        distinct_names(with_value(map, name, value)),
        forall|other: Seq<char>|
            #[trigger] value_at(with_value(map, name, value), other) == (if other == name {
                Some(value)
            } else {
                value_at(map, other)
            }),
        forall|i: int|
            0 <= i < with_value(map, name, value).len() ==> ((#[trigger] with_value(
                map,
                name,
                value,
            )[i]).0 == name || exists|k: int|
                0 <= k < map.len() && (#[trigger] map[k]).0 == with_value(map, name, value)[i].0),
    decreases map.len(),
{
    let r = with_value(map, name, value);
    if map.len() == 0 {
        assert(r.skip(1) =~= map);
        assert forall|other: Seq<char>| #[trigger] value_at(r, other) == (if other == name {
            Some(value)
        } else {
            value_at(map, other)
        }) by {
            assert(value_at(r.skip(1), other) is None);
        }
    } else if map[0].0 == name {
        assert(r.skip(1) =~= map.skip(1));
        assert forall|i: int, j: int| 0 <= i < j < r.len() implies (#[trigger] r[i]).0
            != (#[trigger] r[j]).0 by {
            assert(r[j] == map[j]);
            assert(map[i].0 != map[j].0);
        }
        assert forall|i: int| 0 <= i < r.len() implies ((#[trigger] r[i]).0 == name || exists|k: int|
            0 <= k < map.len() && (#[trigger] map[k]).0 == r[i].0) by {
            if i > 0 {
                assert(r[i] == map[i]);
            }
        }
    } else {
        let rest = map.skip(1);
        let inner = with_value(rest, name, value);
        assert(distinct_names(rest)) by {
            assert forall|i: int, j: int| 0 <= i < j < rest.len() implies (#[trigger] rest[i]).0
                != (#[trigger] rest[j]).0 by {
                assert(map[i + 1].0 != map[j + 1].0);
            }
        }
        law_with_value(rest, name, value);
        assert(r.skip(1) =~= inner);
        assert forall|i: int| 0 <= i < r.len() implies ((#[trigger] r[i]).0 == name || exists|k: int|
            0 <= k < map.len() && (#[trigger] map[k]).0 == r[i].0) by {
            if i > 0 {
                assert(r[i] == inner[i - 1]);
                if r[i].0 != name {
                    let k = choose|k: int|
                        0 <= k < rest.len() && (#[trigger] rest[k]).0 == inner[i - 1].0;
                    assert(map[k + 1].0 == r[i].0);
                }
            } else {
                assert(map[0].0 == r[0].0);
            }
        }
        assert forall|i: int, j: int| 0 <= i < j < r.len() implies (#[trigger] r[i]).0
            != (#[trigger] r[j]).0 by {
            assert(r[j] == inner[j - 1]);
            if i == 0 {
                if inner[j - 1].0 != name {
                    let k = choose|k: int|
                        0 <= k < rest.len() && (#[trigger] rest[k]).0 == inner[j - 1].0;
                    assert(map[0].0 != map[k + 1].0);
                }
            } else {
                assert(r[i] == inner[i - 1]);
            }
        }
        assert forall|other: Seq<char>| #[trigger] value_at(r, other) == (if other == name {
            Some(value)
        } else {
            value_at(map, other)
        }) by {
            assert(value_at(r.skip(1), other) == value_at(inner, other));
        }
    }
}

/// Taking a name out: it has no value any more, and every other name has the value it had.
pub proof fn law_without_value<V>(map: Seq<(Seq<char>, V)>, name: Seq<char>)
    requires
        distinct_names(map),
    ensures
        distinct_names(without_value(map, name)),
        forall|other: Seq<char>|
            #[trigger] value_at(without_value(map, name), other) == (if other == name {
                None
            } else {
                value_at(map, other)
            }),
        forall|i: int|
            0 <= i < without_value(map, name).len() ==> map.contains(
                #[trigger] without_value(map, name)[i],
            ),
    decreases map.len(),
{
    let r = without_value(map, name);
    if map.len() > 0 {
        let rest = map.skip(1);
        assert(distinct_names(rest)) by {
            assert forall|i: int, j: int| 0 <= i < j < rest.len() implies (#[trigger] rest[i]).0
                != (#[trigger] rest[j]).0 by {
                assert(map[i + 1].0 != map[j + 1].0);
            }
        }
        if map[0].0 == name {
            assert forall|i: int| 0 <= i < rest.len() implies (#[trigger] rest[i]).0 != name by {
                assert(map[0].0 != map[i + 1].0);
            }
            lemma_no_value(rest, name);
            assert forall|i: int| 0 <= i < r.len() implies map.contains(#[trigger] r[i]) by {
                assert(map[i + 1] == r[i]);
            }
        } else {
            let inner = without_value(rest, name);
            law_without_value(rest, name);
            assert(r.skip(1) =~= inner);
            assert forall|i: int| 0 <= i < r.len() implies map.contains(#[trigger] r[i]) by {
                if i > 0 {
                    assert(r[i] == inner[i - 1]);
                    let k = choose|k: int| 0 <= k < rest.len() && rest[k] == inner[i - 1];
                    assert(map[k + 1] == r[i]);
                } else {
                    assert(map[0] == r[0]);
                }
            }
            assert forall|i: int, j: int| 0 <= i < j < r.len() implies (#[trigger] r[i]).0
                != (#[trigger] r[j]).0 by {
                assert(r[j] == inner[j - 1]);
                if i == 0 {
                    let k = choose|k: int| 0 <= k < rest.len() && rest[k] == inner[j - 1];
                    assert(map[0].0 != map[k + 1].0);
                } else {
                    assert(r[i] == inner[i - 1]);
                }
            }
            assert forall|other: Seq<char>| #[trigger] value_at(r, other) == (if other == name {
                None
            } else {
                value_at(map, other)
            }) by {
                assert(value_at(r.skip(1), other) == value_at(inner, other));
            }
        }
    }
}

impl<T: View> TextMap<T> {
    /// No values.
    pub fn new() -> (r: TextMap<T>)
        ensures
            r@ == Seq::<(Seq<char>, T::V)>::empty(),
    {
        let r = TextMap { entries: Vec::new() };
        proof {
            assert(r@ =~= Seq::empty());
        }
        r
    }

    /// Where the value under `name` stands, or the number of values.
    fn find(&self, name: &str) -> (r: usize)
        ensures
            r <= self.entries@.len(),
            value_at(self@, name@) == value_at(self@.skip(r as int), name@),
            r < self.entries@.len() <==> value_at(self@, name@) is Some,
            r < self.entries@.len() ==> self@[r as int].0 == name@,
            forall|v: T::V|
                #[trigger] with_value(self@, name@, v) == self@.take(r as int) + with_value(
                    self@.skip(r as int),
                    name@,
                    v,
                ),
            without_value(self@, name@) == self@.take(r as int) + without_value(
                self@.skip(r as int),
                name@,
            ),
    {
        let ghost all = self@;
        let mut i: usize = 0;
        proof {
            assert(all.skip(0) =~= all);
            assert forall|v: T::V| #[trigger] with_value(all, name@, v) == all.take(0)
                + with_value(all.skip(0), name@, v) by {
                assert(all.take(0) + with_value(all, name@, v) =~= with_value(all, name@, v));
            }
            assert(all.take(0) + without_value(all, name@) =~= without_value(all, name@));
        }
        while i < self.entries.len()
            invariant
                i <= self.entries@.len(),
                all == self@,
                value_at(all, name@) == value_at(all.skip(i as int), name@),
                forall|v: T::V|
                    #[trigger] with_value(all, name@, v) == all.take(i as int) + with_value(
                        all.skip(i as int),
                        name@,
                        v,
                    ),
                without_value(all, name@) == all.take(i as int) + without_value(
                    all.skip(i as int),
                    name@,
                ),
            decreases self.entries@.len() - i,
        {
            let ghost rest = all.skip(i as int);
            proof {
                assert(rest[0] == (self.entries@[i as int].name@, self.entries@[i as int].value@));
                assert(rest.skip(1) =~= all.skip(i + 1));
            }
            if same_text(self.entries[i].name.as_str(), name) {
                return i;
            }
            proof {
                assert forall|v: T::V| #[trigger] with_value(all, name@, v) == all.take(i + 1)
                    + with_value(all.skip(i + 1), name@, v) by {
                    assert(all.take(i + 1) + with_value(rest.skip(1), name@, v) =~= all.take(
                        i as int,
                    ) + (seq![rest[0]] + with_value(rest.skip(1), name@, v)));
                }
                assert(all.take(i + 1) + without_value(rest.skip(1), name@) =~= all.take(i as int)
                    + (seq![rest[0]] + without_value(rest.skip(1), name@)));
            }
            i = i + 1;
        }
        i
    }

    /// The value under `name`.
    pub fn get(&self, name: &str) -> (r: Option<&T>)
        ensures
            match r {
                Some(v) => value_at(self@, name@) == Some(v@),
                None => value_at(self@, name@) is None,
            },
    {
        let at = self.find(name);
        if at < self.entries.len() {
            proof {
                assert(self@.skip(at as int)[0] == self@[at as int]);
            }
            Some(&self.entries[at].value)
        } else {
            None
        }
    }

    /// Puts a value under `name`, in place of what was there.
    pub fn insert(&mut self, name: String, value: T)
        ensures
            final(self)@ == with_value(old(self)@, name@, value@),
    {
        let ghost all = self@;
        let at = self.find(name.as_str());
        let ghost rest = all.skip(at as int);
        let ghost entry = (name@, value@);
        let n: usize = self.entries.len();
        proof {
            assert(with_value(all, name@, value@) == all.take(at as int) + with_value(
                rest,
                name@,
                value@,
            ));
        }
        if at < n {
            proof {
                assert(rest[0] == all[at as int]);
            }
            self.entries.set(at, NamedValue { name, value });
            proof {
                assert(self@ =~= all.take(at as int) + (seq![entry] + rest.skip(1)));
            }
        } else {
            self.entries.push(NamedValue { name, value });
            proof {
                assert(rest =~= Seq::empty());
                assert(self@ =~= all.take(at as int) + seq![entry]);
            }
        }
    }

    /// Takes the value under `name` out.
    pub fn remove(&mut self, name: &str) -> (r: Option<T>)
        ensures
            final(self)@ == without_value(old(self)@, name@),
            match r {
                Some(v) => value_at(old(self)@, name@) == Some(v@),
                None => value_at(old(self)@, name@) is None,
            },
    {
        let ghost all = self@;
        let at = self.find(name);
        let ghost rest = all.skip(at as int);
        if at < self.entries.len() {
            proof {
                assert(rest[0] == all[at as int]);
            }
            let entry = self.entries.remove(at);
            proof {
                assert(all[at as int] == (entry.name@, entry.value@));
                assert(self@ =~= all.take(at as int) + rest.skip(1));
            }
            Some(entry.value)
        } else {
            proof {
                assert(rest =~= Seq::empty());
                assert(all.take(at as int) + rest =~= all);
            }
            None
        }
    }
}

} // verus!
