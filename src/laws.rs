use vstd::prelude::*;

use crate::ast::{Ident, Module, ModuleItem, VarDeclKind};
use crate::hoist_table::{key_index, insert_entry};
use crate::provide::{has_key, hoisted, is_candidate, record, retagged, transformed};

verus! {

/// Position of the first free reference to `k` in `ids` that the provider
/// table knows, or -1 when there is none.
pub open spec fn first_free_ref(
    ids: Seq<Ident>,
    k: Seq<char>,
    u: u64,
    p: Map<Seq<char>, (Seq<char>, Seq<char>)>,
) -> int
    decreases ids.len(),
{
    if ids.len() == 0 {
        -1
    } else if first_free_ref(ids.drop_last(), k, u, p) >= 0 {
        first_free_ref(ids.drop_last(), k, u, p)
    } else if is_candidate(ids.last(), u, p) && ids.last().sym@ == k {
        ids.len() - 1
    } else {
        -1
    }
}

/// Item `j` of `m` is a `const` declaration of the name `name`.
pub open spec fn declares(m: Module, j: int, name: Seq<char>) -> bool {
    match m.body@[j] {
        ModuleItem::Var(VarDeclKind::Const, idx, _) => idx < m.idents@.len()
            && m.idents@[idx as int].sym@ == name,
        _ => false,
    }
}

proof fn lemma_key_index(t: Seq<(Seq<char>, (Seq<char>, Seq<char>))>, k: Seq<char>)
    ensures
        key_index(t, k) >= 0 ==> key_index(t, k) < t.len() && t[key_index(t, k)].0 == k,
        key_index(t, k) < 0 ==> !has_key(t, k),
    decreases t.len(),
{
    if t.len() > 0 {
        lemma_key_index(t.drop_last(), k);
        if key_index(t, k) < 0 {
            assert forall|j: int| 0 <= j < t.len() implies t[j].0 != k by {
                if j < t.len() - 1 {
                    assert(t.drop_last()[j] == t[j]);
                }
            }
        }
    }
}

/// What `first_free_ref` finds is a free reference to `k`, and the first.
proof fn lemma_first_free_ref(
    ids: Seq<Ident>,
    k: Seq<char>,
    u: u64,
    p: Map<Seq<char>, (Seq<char>, Seq<char>)>,
)
    ensures
        first_free_ref(ids, k, u, p) >= 0 ==> {
            let f = first_free_ref(ids, k, u, p);
            &&& f < ids.len()
            &&& is_candidate(ids[f], u, p)
            &&& ids[f].sym@ == k
            &&& forall|i: int| 0 <= i < f ==> !(is_candidate(ids[i], u, p) && ids[i].sym@ == k)
        },
        forall|i: int|
            0 <= i < ids.len() && is_candidate(ids[i], u, p) && ids[i].sym@ == k
                ==> 0 <= first_free_ref(ids, k, u, p) <= i,
    decreases ids.len(),
{
    if ids.len() > 0 {
        let d = ids.drop_last();
        lemma_first_free_ref(d, k, u, p);
        assert forall|i: int| 0 <= i < ids.len() - 1 implies ids[i] == d[i] by {}
    }
}

/// The invariants of the hoist table built from `ids`.
proof fn lemma_hoisted(ids: Seq<Ident>, u: u64, p: Map<Seq<char>, (Seq<char>, Seq<char>)>)
    ensures
        forall|j1: int, j2: int|
            0 <= j1 < j2 < hoisted(ids, u, p).len() ==> hoisted(ids, u, p)[j1].0 != hoisted(ids, u, p)[j2].0,
        forall|j: int|
            0 <= j < hoisted(ids, u, p).len() ==> #[trigger] hoisted(ids, u, p)[j].1 == p[hoisted(
                ids,
                u,
                p,
            )[j].0],
        forall|k: Seq<char>| #[trigger] has_key(hoisted(ids, u, p), k) <==> first_free_ref(ids, k, u, p) >= 0,
        forall|j1: int, j2: int|
            0 <= j1 < j2 < hoisted(ids, u, p).len() ==> first_free_ref(ids, hoisted(ids, u, p)[j1].0, u, p)
                < first_free_ref(ids, hoisted(ids, u, p)[j2].0, u, p),
        forall|k: Seq<char>| #[trigger] first_free_ref(ids, k, u, p) < ids.len(),
    decreases ids.len(),
{
    let h = hoisted(ids, u, p);
    if ids.len() == 0 {
        assert(h.len() == 0);
        return;
    }
    let d = ids.drop_last();
    let x = ids.last();
    let h0 = hoisted(d, u, p);
    lemma_hoisted(d, u, p);
    assert(h == record(h0, x, u, p));
    let n = ids.len();
    let s = x.sym@;
    if !is_candidate(x, u, p) {
        assert(h == h0);
        assert forall|j: int| 0 <= j < h.len() implies #[trigger] h[j].1 == p[h[j].0] by {
            assert(h0[j].1 == p[h0[j].0]);
        }
        assert forall|k: Seq<char>| #[trigger] has_key(h, k) <==> first_free_ref(ids, k, u, p) >= 0 by {
            assert(has_key(h0, k) <==> first_free_ref(d, k, u, p) >= 0);
        }
        assert forall|j1: int, j2: int| 0 <= j1 < j2 < h.len() implies first_free_ref(ids, h[j1].0, u, p)
            < first_free_ref(ids, h[j2].0, u, p) by {
            assert(has_key(h0, h[j1].0));
            assert(has_key(h0, h[j2].0));
        }
        assert forall|k: Seq<char>| #[trigger] first_free_ref(ids, k, u, p) < ids.len() by {
            assert(first_free_ref(d, k, u, p) < d.len());
        }
    } else {
        lemma_key_index(h0, s);
        if key_index(h0, s) >= 0 {
            let ki = key_index(h0, s);
            assert(h0[ki].1 == p[s]);
            assert(h == insert_entry(h0, s, p[s]));
            assert(h =~= h0);
            assert forall|j: int| 0 <= j < h.len() implies #[trigger] h[j].1 == p[h[j].0] by {
                assert(h0[j].1 == p[h0[j].0]);
            }
            assert(has_key(h0, s));
            assert forall|k: Seq<char>| #[trigger] has_key(h, k) <==> first_free_ref(ids, k, u, p) >= 0 by {
                assert(has_key(h0, k) <==> first_free_ref(d, k, u, p) >= 0);
            }
            assert forall|j1: int, j2: int| 0 <= j1 < j2 < h.len() implies first_free_ref(
                ids,
                h[j1].0,
                u,
                p,
            ) < first_free_ref(ids, h[j2].0, u, p) by {
                assert(has_key(h0, h[j1].0));
                assert(has_key(h0, h[j2].0));
            }
            assert forall|k: Seq<char>| #[trigger] first_free_ref(ids, k, u, p) < ids.len() by {
                assert(first_free_ref(d, k, u, p) < d.len());
            }
        } else {
            assert(!has_key(h0, s));
            assert(h == h0.push((s, p[s])));
            assert(first_free_ref(d, s, u, p) < 0);
            assert(first_free_ref(ids, s, u, p) == n - 1);
            assert forall|k: Seq<char>| #[trigger] has_key(h, k) <==> first_free_ref(ids, k, u, p) >= 0 by {
                assert(has_key(h0, k) <==> first_free_ref(d, k, u, p) >= 0);
                if k == s {
                    assert(h[h.len() - 1].0 == s);
                } else {
                    if has_key(h, k) {
                        let j = choose|j: int| 0 <= j < h.len() && h[j].0 == k;
                        assert(j < h0.len());
                        assert(h0[j].0 == k);
                    }
                    if has_key(h0, k) {
                        let j = choose|j: int| 0 <= j < h0.len() && h0[j].0 == k;
                        assert(h[j].0 == k);
                    }
                }
            }
            assert forall|j1: int, j2: int| 0 <= j1 < j2 < h.len() implies h[j1].0 != h[j2].0 by {
                if j2 == h.len() - 1 {
                    assert(h0[j1].0 == h[j1].0);
                } else {
                    assert(h0[j1].0 != h0[j2].0);
                }
            }
            assert forall|j1: int, j2: int| 0 <= j1 < j2 < h.len() implies first_free_ref(
                ids,
                h[j1].0,
                u,
                p,
            ) < first_free_ref(ids, h[j2].0, u, p) by {
                assert(h[j1] == h0[j1]);
                assert(has_key(h0, h0[j1].0));
                assert(first_free_ref(d, h0[j1].0, u, p) < d.len());
                if j2 < h.len() - 1 {
                    assert(h[j2] == h0[j2]);
                    assert(has_key(h0, h0[j2].0));
                }
            }
            assert forall|k: Seq<char>| #[trigger] first_free_ref(ids, k, u, p) < ids.len() by {
                assert(first_free_ref(d, k, u, p) < d.len());
            }
            assert forall|j: int| 0 <= j < h.len() implies #[trigger] h[j].1 == p[h[j].0] by {
                if j < h.len() - 1 {
                    assert(h[j] == h0[j]);
                    assert(h0[j].1 == p[h0[j].0]);
                } else {
                    assert(h[j] == (s, p[s]));
                }
            }
        }
    }
}

/// An occurrence that is bound by some scope of the module (its tag is not
/// the unresolved one) is left exactly as it was, whatever the provider
/// table holds and whatever same-named free occurrences exist elsewhere.
pub proof fn lemma_no_shadow(
    m0: Module,
    m1: Module,
    p: Map<Seq<char>, (Seq<char>, Seq<char>)>,
    u: u64,
    top: u64,
    i: int,
)
    requires
        transformed(m0, m1, p, u, top),
        0 <= i < m0.idents@.len(),
        m0.idents@[i].ctxt != u,
    ensures
        m1.idents@[i] == m0.idents@[i],
{
    assert(retagged(m0.idents@[i], m1.idents@[i], u, top, hoisted(m0.idents@, u, p)));
}

/// The hoisted declarations are the first items of the output; a name gets
/// a declaration if and only if the module references it freely and the
/// provider table knows it, and then exactly one, however many such
/// references there are.
pub proof fn lemma_one_declaration(
    m0: Module,
    m1: Module,
    p: Map<Seq<char>, (Seq<char>, Seq<char>)>,
    u: u64,
    top: u64,
    name: Seq<char>,
)
    requires
        transformed(m0, m1, p, u, top),
    ensures
        ({
            let k = m1.body@.len() - m0.body@.len();
            &&& (exists|j: int| 0 <= j < k && declares(m1, j, name)) <==> (exists|i: int|
                0 <= i < m0.idents@.len() && is_candidate(m0.idents@[i], u, p)
                    && m0.idents@[i].sym@ == name)
            &&& forall|j1: int, j2: int|
                0 <= j1 < k && 0 <= j2 < k && declares(m1, j1, name) && declares(m1, j2, name)
                    ==> j1 == j2
        }),
{
    let ids = m0.idents@;
    let h = hoisted(ids, u, p);
    let n0 = ids.len();
    let k = m1.body@.len() - m0.body@.len();
    lemma_hoisted(ids, u, p);
    lemma_first_free_ref(ids, name, u, p);
    assert forall|j: int| 0 <= j < k implies (declares(m1, j, name) <==> h[j].0 == name) by {
        assert(crate::provide::is_decl_of(m1.body@[j], n0 + j, h[j].1));
        assert(m1.idents@[n0 + j].sym@ == h[j].0);
    }
    if exists|i: int| 0 <= i < n0 && is_candidate(ids[i], u, p) && ids[i].sym@ == name {
        assert(first_free_ref(ids, name, u, p) >= 0);
        assert(has_key(h, name));
        let j = choose|j: int| 0 <= j < h.len() && h[j].0 == name;
        assert(declares(m1, j, name));
    }
    if exists|j: int| 0 <= j < k && declares(m1, j, name) {
        let j = choose|j: int| 0 <= j < k && declares(m1, j, name);
        assert(has_key(h, name));
        assert(first_free_ref(ids, name, u, p) >= 0);
    }
}

/// The hoisted declarations stand before every item the module had, which
/// keep their order, and the declarations come in the order in which the
/// first free reference to each name occurs.
pub proof fn lemma_hoist_order(
    m0: Module,
    m1: Module,
    p: Map<Seq<char>, (Seq<char>, Seq<char>)>,
    u: u64,
    top: u64,
    j1: int,
    j2: int,
    name1: Seq<char>,
    name2: Seq<char>,
)
    requires
        transformed(m0, m1, p, u, top),
        0 <= j1 < j2 < m1.body@.len() - m0.body@.len(),
        declares(m1, j1, name1),
        declares(m1, j2, name2),
    ensures
        m1.body@.subrange(m1.body@.len() - m0.body@.len(), m1.body@.len() as int) == m0.body@,
        0 <= first_free_ref(m0.idents@, name1, u, p) < first_free_ref(m0.idents@, name2, u, p),
{
    let ids = m0.idents@;
    let h = hoisted(ids, u, p);
    let n0 = ids.len();
    lemma_hoisted(ids, u, p);
    assert(crate::provide::is_decl_of(m1.body@[j1], n0 + j1, h[j1].1));
    assert(m1.idents@[n0 + j1].sym@ == h[j1].0);
    assert(crate::provide::is_decl_of(m1.body@[j2], n0 + j2, h[j2].1));
    assert(m1.idents@[n0 + j2].sym@ == h[j2].0);
    assert(has_key(h, name1));
}

/// Running the injector on its own output changes nothing.
pub proof fn lemma_idempotent(
    m0: Module,
    m1: Module,
    m2: Module,
    p: Map<Seq<char>, (Seq<char>, Seq<char>)>,
    u: u64,
    top: u64,
)
    requires
        u != top,
        transformed(m0, m1, p, u, top),
        transformed(m1, m2, p, u, top),
    ensures
        m2.body@ == m1.body@,
        m2.idents@ == m1.idents@,
{
    let ids0 = m0.idents@;
    let h0 = hoisted(ids0, u, p);
    let n0 = ids0.len();
    let ids1 = m1.idents@;
    let h1 = hoisted(ids1, u, p);
    lemma_hoisted(ids0, u, p);
    lemma_hoisted(ids1, u, p);
    assert forall|i: int| 0 <= i < ids1.len() implies !is_candidate(#[trigger] ids1[i], u, p) by {
        if i < n0 {
            assert(retagged(ids0[i], ids1[i], u, top, h0));
            if is_candidate(ids1[i], u, p) {
                assert(is_candidate(ids0[i], u, p));
                lemma_first_free_ref(ids0, ids0[i].sym@, u, p);
                assert(has_key(h0, ids0[i].sym@));
            }
        } else {
            assert(ids1[n0 + (i - n0)].ctxt == top);
        }
    }
    if h1.len() > 0 {
        assert(has_key(h1, h1[0].0));
        lemma_first_free_ref(ids1, h1[0].0, u, p);
    }
    assert(h1.len() == 0);
    assert(m2.body@ =~= m1.body@.subrange(0, m1.body@.len() as int));
    assert(m2.body@ =~= m1.body@);
    assert forall|i: int| 0 <= i < ids1.len() implies m2.idents@[i] == ids1[i] by {
        assert(retagged(ids1[i], m2.idents@[i], u, top, h1));
    }
    assert(m2.idents@ =~= m1.idents@);
}

/// The injector keeps every item the module had, node for node, and the
/// name of every occurrence: a shorthand property `{ name }` stays one
/// occurrence of the same name, so it is written back in shorthand form.
pub proof fn lemma_shorthand_kept(
    m0: Module,
    m1: Module,
    p: Map<Seq<char>, (Seq<char>, Seq<char>)>,
    u: u64,
    top: u64,
)
    requires
        transformed(m0, m1, p, u, top),
    ensures
        forall|j: int|
            0 <= j < m0.body@.len() ==> m1.body@[m1.body@.len() - m0.body@.len() + j] == #[trigger] m0.body@[j],
        forall|i: int| 0 <= i < m0.idents@.len() ==> (#[trigger] m1.idents@[i]).sym == m0.idents@[i].sym,
{
    let h = hoisted(m0.idents@, u, p);
    let k = m1.body@.len() - m0.body@.len();
    assert forall|j: int| 0 <= j < m0.body@.len() implies m1.body@[k + j] == #[trigger] m0.body@[j] by {
        assert(m1.body@.subrange(k, m1.body@.len() as int)[j] == m1.body@[k + j]);
    }
    assert forall|i: int| 0 <= i < m0.idents@.len() implies (#[trigger] m1.idents@[i]).sym == m0.idents@[i].sym by {
        assert(retagged(m0.idents@[i], m1.idents@[i], u, top, h));
    }
}

} // verus!
