//! A small string-keyed map kept as an association vector, used for
//! provider-name to track-id maps. Keys are unique; an insert with an
//! existing key replaces its value in place.

use vstd::prelude::*;

verus! {

/// First value bound to `k`, if any.
pub open spec fn assoc_lookup(m: Seq<(Seq<char>, Seq<char>)>, k: Seq<char>) -> Option<Seq<char>>
    decreases m.len(),
{
    if m.len() == 0 {
        None
    } else if m.first().0 == k {
        Some(m.first().1)
    } else {
        assoc_lookup(m.drop_first(), k)
    }
}

/// Replace the binding of `k` in place, or append a new one.
pub open spec fn assoc_upsert(
    m: Seq<(Seq<char>, Seq<char>)>,
    k: Seq<char>,
    v: Seq<char>,
) -> Seq<(Seq<char>, Seq<char>)>
    decreases m.len(),
{
    if m.len() == 0 {
        seq![(k, v)]
    } else if m.first().0 == k {
        seq![(k, v)] + m.drop_first()
    } else {
        seq![m.first()] + assoc_upsert(m.drop_first(), k, v)
    }
}

/// Looking up the key just written finds the new value.
pub proof fn lemma_upsert_found(m: Seq<(Seq<char>, Seq<char>)>, k: Seq<char>, v: Seq<char>)
    ensures
        assoc_lookup(assoc_upsert(m, k, v), k) == Some(v),
    decreases m.len(),
{
    if m.len() > 0 && m.first().0 != k {
        lemma_upsert_found(m.drop_first(), k, v);
        let r = assoc_upsert(m, k, v);
        assert(r.first() == m.first());
        assert(r.drop_first() =~= assoc_upsert(m.drop_first(), k, v));
    } else if m.len() > 0 {
        let r = assoc_upsert(m, k, v);
        assert(r.first() == (k, v));
    }
}

/// Writing one key leaves every other key's binding unchanged.
pub proof fn lemma_upsert_other(
    m: Seq<(Seq<char>, Seq<char>)>,
    k: Seq<char>,
    v: Seq<char>,
    k2: Seq<char>,
)
    requires
        k2 != k,
    ensures
        assoc_lookup(assoc_upsert(m, k, v), k2) == assoc_lookup(m, k2),
    decreases m.len(),
{
    if m.len() == 0 {
        let r = assoc_upsert(m, k, v);
        assert(r.first() == (k, v));
        assert(r.drop_first() =~= Seq::<(Seq<char>, Seq<char>)>::empty());
        assert(assoc_lookup(r, k2) == assoc_lookup(r.drop_first(), k2));
    } else if m.first().0 == k {
        let r = assoc_upsert(m, k, v);
        assert(r.first() == (k, v));
        assert(r.drop_first() =~= m.drop_first());
        assert(assoc_lookup(r, k2) == assoc_lookup(m.drop_first(), k2));
        assert(assoc_lookup(m, k2) == assoc_lookup(m.drop_first(), k2));
    } else {
        lemma_upsert_other(m.drop_first(), k, v, k2);
        let r = assoc_upsert(m, k, v);
        assert(r.len() > 0);
        assert(r.first() == m.first());
        assert(r.drop_first() =~= assoc_upsert(m.drop_first(), k, v));
        if m.first().0 == k2 {
            assert(assoc_lookup(r, k2) == Some(r.first().1));
            assert(assoc_lookup(m, k2) == Some(m.first().1));
        } else {
            assert(assoc_lookup(r, k2) == assoc_lookup(r.drop_first(), k2));
            assert(assoc_lookup(m, k2) == assoc_lookup(m.drop_first(), k2));
        }
    }
}

pub open spec fn view_pairs(m: Seq<(String, String)>) -> Seq<(Seq<char>, Seq<char>)> {
    m.map_values(|p: (String, String)| (p.0@, p.1@))
}

/// Find a key in an association vector of strings.
pub fn assoc_get<'a>(m: &'a Vec<(String, String)>, k: &str) -> (r: Option<&'a String>)
    ensures
        match r {
            Some(v) => assoc_lookup(view_pairs(m@), k@) == Some(v@),
            None => assoc_lookup(view_pairs(m@), k@) is None,
        },
{
    let probe: String = k.to_owned();
    proof {
        assert(view_pairs(m@).len() == m@.len());
        assert(view_pairs(m@).subrange(0, m@.len() as int) =~= view_pairs(m@));
    }
    let mut i: usize = 0;
    while i < m.len()
        invariant
            0 <= i <= m@.len(),
            probe@ == k@,
            assoc_lookup(view_pairs(m@), k@) == assoc_lookup(
                view_pairs(m@).subrange(i as int, m@.len() as int),
                k@,
            ),
        decreases m@.len() - i,
    {
        let ghost rest = view_pairs(m@).subrange(i as int, m@.len() as int);
        proof {
            assert(view_pairs(m@)[i as int] == (m@[i as int].0@, m@[i as int].1@));
            assert(rest.first() == view_pairs(m@)[i as int]);
            assert(rest.drop_first() =~= view_pairs(m@).subrange(i + 1, m@.len() as int));
        }
        if m[i].0 == probe {
            return Some(&m[i].1);
        }
        i += 1;
    }
    None
}

/// Insert or replace a binding, keeping keys unique.
pub fn assoc_put(m: &mut Vec<(String, String)>, k: String, v: String)
    ensures
        view_pairs(final (m)@) == assoc_upsert(view_pairs(old(m)@), k@, v@),
{
    let ghost m0 = view_pairs(m@);
    proof {
        assert(m0.len() == m@.len());
        assert(m0.subrange(0, m0.len() as int) =~= m0);
        assert(m0.subrange(0, 0) + assoc_upsert(m0.subrange(0, m0.len() as int), k@, v@)
            =~= assoc_upsert(m0, k@, v@));
    }
    let mut i: usize = 0;
    while i < m.len()
        invariant
            0 <= i <= m@.len(),
            m0 == view_pairs(old(m)@),
            view_pairs(m@) == m0,
            forall|j: int| 0 <= j < i ==> m0[j].0 != k@,
            assoc_upsert(m0, k@, v@) == m0.subrange(0, i as int) + assoc_upsert(
                m0.subrange(i as int, m0.len() as int),
                k@,
                v@,
            ),
        decreases m@.len() - i,
    {
        let ghost rest = m0.subrange(i as int, m0.len() as int);
        proof {
            assert(m0[i as int] == (m@[i as int].0@, m@[i as int].1@));
            assert(rest.first() == m0[i as int]);
            assert(rest.drop_first() =~= m0.subrange(i + 1, m0.len() as int));
        }
        if m[i].0 == k {
            let ghost before = m@;
            m.set(i, (k, v));
            proof {
                assert(assoc_upsert(rest, k@, v@) == seq![(k@, v@)] + rest.drop_first());
                assert(assoc_upsert(rest, k@, v@).len() == rest.len());
                assert(assoc_upsert(m0, k@, v@).len() == m0.len());
                assert(view_pairs(m@).len() == m@.len());
                assert(view_pairs(before).len() == before.len());
                assert forall|j: int| 0 <= j < view_pairs(m@).len() implies #[trigger] view_pairs(
                    m@,
                )[j] == assoc_upsert(m0, k@, v@)[j] by {
                    assert(view_pairs(m@)[j] == (m@[j].0@, m@[j].1@));
                    assert(view_pairs(before)[j] == (before[j].0@, before[j].1@));
                    if j < i {
                        assert(m@[j] == before[j]);
                        assert(assoc_upsert(m0, k@, v@)[j] == m0.subrange(0, i as int)[j]);
                    } else if j == i {
                        assert(m@[j] == (k, v));
                        assert(assoc_upsert(m0, k@, v@)[j] == (seq![(k@, v@)]
                            + rest.drop_first())[0]);
                    } else {
                        assert(m@[j] == before[j]);
                        assert(assoc_upsert(m0, k@, v@)[j] == (seq![(k@, v@)]
                            + rest.drop_first())[j - i]);
                        assert((seq![(k@, v@)] + rest.drop_first())[j - i] == rest.drop_first()[j
                            - i - 1]);
                        assert(rest.drop_first()[j - i - 1] == m0[j]);
                    }
                }
                assert(view_pairs(m@) =~= assoc_upsert(m0, k@, v@));
                assert(m0 == view_pairs(old(m)@));
                assert(view_pairs(m@) == assoc_upsert(view_pairs(old(m)@), k@, v@));
            }
            return ;
        }
        proof {
            assert(assoc_upsert(rest, k@, v@) == seq![rest.first()] + assoc_upsert(
                rest.drop_first(),
                k@,
                v@,
            ));
            assert(m0.subrange(0, i as int) + (seq![rest.first()] + assoc_upsert(
                rest.drop_first(),
                k@,
                v@,
            )) =~= m0.subrange(0, i + 1) + assoc_upsert(
                m0.subrange(i + 1, m0.len() as int),
                k@,
                v@,
            ));
        }
        i += 1;
    }
    let ghost before = m@;
    m.push((k, v));
    proof {
        let rest = m0.subrange(m0.len() as int, m0.len() as int);
        assert(rest.len() == 0);
        assert(assoc_upsert(rest, k@, v@) == seq![(k@, v@)]);
        assert forall|j: int| 0 <= j < view_pairs(m@).len() implies #[trigger] view_pairs(m@)[j]
            == assoc_upsert(m0, k@, v@)[j] by {
            assert(view_pairs(m@)[j] == (m@[j].0@, m@[j].1@));
            if j < before.len() {
                assert(m@[j] == before[j]);
                assert(view_pairs(before)[j] == (before[j].0@, before[j].1@));
                assert(assoc_upsert(m0, k@, v@)[j] == m0.subrange(0, m0.len() as int)[j]);
            } else {
                assert(m@[j] == (k, v));
            }
        }
        assert(view_pairs(m@) =~= assoc_upsert(m0, k@, v@));
    }
}

} // verus!
