use indexmap::IndexMap;
use vstd::prelude::*;

use crate::ast::{Expr, Ident, Module, ModuleItem, VarDeclKind};
use crate::hoist_table::{
    insert_entry, table_entries, table_get_index, table_insert, table_len, table_new,
};
use crate::providers::Providers;

verus! {

/// Whether `id` is a free reference that the provider table knows.
pub open spec fn is_candidate(id: Ident, u: u64, p: Map<Seq<char>, (Seq<char>, Seq<char>)>) -> bool {
    !id.binding && id.ctxt == u && p.contains_key(id.sym@)
}

/// The hoist table after meeting occurrence `id`.
pub open spec fn record(
    t: Seq<(Seq<char>, (Seq<char>, Seq<char>))>,
    id: Ident,
    u: u64,
    p: Map<Seq<char>, (Seq<char>, Seq<char>)>,
) -> Seq<(Seq<char>, (Seq<char>, Seq<char>))> {
    if is_candidate(id, u, p) {
        insert_entry(t, id.sym@, p[id.sym@])
    } else {
        t
    }
}

/// The hoist table after meeting every occurrence of `ids`, in order.
pub open spec fn record_all(
    t: Seq<(Seq<char>, (Seq<char>, Seq<char>))>,
    ids: Seq<Ident>,
    u: u64,
    p: Map<Seq<char>, (Seq<char>, Seq<char>)>,
) -> Seq<(Seq<char>, (Seq<char>, Seq<char>))>
    decreases ids.len(),
{
    if ids.len() == 0 {
        t
    } else {
        record(record_all(t, ids.drop_last(), u, p), ids.last(), u, p)
    }
}

/// The declarations that a module's occurrences call for: one entry per
/// provided name with a free reference, in order of first reference.
pub open spec fn hoisted(
    ids: Seq<Ident>,
    u: u64,
    p: Map<Seq<char>, (Seq<char>, Seq<char>)>,
) -> Seq<(Seq<char>, (Seq<char>, Seq<char>))> {
    record_all(Seq::empty(), ids, u, p)
}

pub open spec fn has_key(t: Seq<(Seq<char>, (Seq<char>, Seq<char>))>, k: Seq<char>) -> bool {
    exists|j: int| 0 <= j < t.len() && t[j].0 == k
}

/// `n` is occurrence `o` after rebinding the free occurrences of `names`
/// to `top`.
pub open spec fn retagged(
    o: Ident,
    n: Ident,
    u: u64,
    top: u64,
    names: Seq<(Seq<char>, (Seq<char>, Seq<char>))>,
) -> bool {
    &&& n.sym == o.sym
    &&& n.binding == o.binding
    &&& n.ctxt == (if o.ctxt == u && has_key(names, o.sym@) {
        top
    } else {
        o.ctxt
    })
}

/// `e` loads module `from`, or its member `key` when that is not empty.
pub open spec fn is_require_of(e: Expr, from: Seq<char>, key: Seq<char>) -> bool {
    if key.len() == 0 {
        match e {
            Expr::Require(f) => f@ == from,
            _ => false,
        }
    } else {
        match e {
            Expr::Member(obj, prop) => prop@ == key && match *obj {
                Expr::Require(f) => f@ == from,
                _ => false,
            },
            _ => false,
        }
    }
}

/// `item` is `const <idents[idx]> = require(from)[.key];`.
pub open spec fn is_decl_of(item: ModuleItem, idx: int, rule: (Seq<char>, Seq<char>)) -> bool {
    match item {
        ModuleItem::Var(VarDeclKind::Const, i, init) => i == idx && is_require_of(init, rule.0, rule.1),
        _ => false,
    }
}

/// `m1` is `m0` with the declarations of `h` hoisted in front of its items
/// and the free occurrences of their names rebound to `top`.
pub open spec fn hoisted_into(
    m0: Module,
    m1: Module,
    h: Seq<(Seq<char>, (Seq<char>, Seq<char>))>,
    u: u64,
    top: u64,
) -> bool {
    let k = h.len();
    let n0 = m0.idents@.len();
    &&& m1.idents@.len() == n0 + k
    &&& m1.body@.len() == k + m0.body@.len()
    &&& m1.body@.subrange(k as int, m1.body@.len() as int) == m0.body@
    &&& forall|j: int| 0 <= j < k ==> #[trigger] is_decl_of(m1.body@[j], n0 + j, h[j].1)
    &&& forall|i: int|
        0 <= i < n0 ==> #[trigger] retagged(m0.idents@[i], m1.idents@[i], u, top, h)
    &&& forall|j: int|
        0 <= j < k ==> {
            &&& (#[trigger] m1.idents@[n0 + j]).sym@ == h[j].0
            &&& m1.idents@[n0 + j].ctxt == top
            &&& m1.idents@[n0 + j].binding
        }
}

/// What one run of the injector makes of `m0`.
pub open spec fn transformed(
    m0: Module,
    m1: Module,
    p: Map<Seq<char>, (Seq<char>, Seq<char>)>,
    u: u64,
    top: u64,
) -> bool {
    hoisted_into(m0, m1, hoisted(m0.idents@, u, p), u, top)
}

/// The injector: hoists a `require` declaration for each provided name that
/// the module references freely, and rebinds those references to it.
pub struct Provide {
    unresolved_mark: u64,
    top_level_mark: u64,
    providers: Providers,
    var_decls: IndexMap<String, (String, String)>,
}

impl Provide {
    pub closed spec fn unresolved(&self) -> u64 {
        self.unresolved_mark
    }

    pub closed spec fn top_level(&self) -> u64 {
        self.top_level_mark
    }

    pub closed spec fn rules(&self) -> Map<Seq<char>, (Seq<char>, Seq<char>)> {
        self.providers@
    }

    pub closed spec fn wf(&self) -> bool {
        self.providers.wf()
    }

    /// The declarations gathered so far, in hoisting order.
    pub closed spec fn entries(&self) -> Seq<(Seq<char>, (Seq<char>, Seq<char>))> {
        table_entries(self.var_decls)
    }

    pub fn new(providers: Providers, unresolved_mark: u64, top_level_mark: u64) -> (r: Self)
        requires
            providers.wf(),
        ensures
            r.wf(),
            r.unresolved() == unresolved_mark,
            r.top_level() == top_level_mark,
            r.rules() == providers@,
            r.entries() == Seq::<(Seq<char>, (Seq<char>, Seq<char>))>::empty(),
    {
        Self { unresolved_mark, top_level_mark, providers, var_decls: table_new() }
    }

    /// Visits every occurrence of `module` in order, then puts the gathered
    /// declarations in front of its items and rebinds the free references
    /// of their names.
    pub fn visit_mut_module(&mut self, module: &mut Module)
        requires
            old(self).wf(),
        ensures
            final(self).wf(),
            final(self).unresolved() == old(self).unresolved(),
            final(self).top_level() == old(self).top_level(),
            final(self).rules() == old(self).rules(),
            final(self).entries() == record_all(
                old(self).entries(),
                old(module).idents@,
                old(self).unresolved(),
                old(self).rules(),
            ),
            hoisted_into(
                *old(module),
                *final(module),
                final(self).entries(),
                old(self).unresolved(),
                old(self).top_level(),
            ),
            old(module).wf() ==> final(module).wf(),
    {
        let ghost u = self.unresolved();
        let ghost p = self.rules();
        let ghost ids0 = module.idents@;
        let n0 = module.idents.len();
        let mut i: usize = 0;
        while i < n0
            invariant
                self.wf(),
                self.unresolved() == u,
                self.top_level() == old(self).top_level(),
                self.rules() == p,
                *module == *old(module),
                ids0 == module.idents@,
                n0 == ids0.len(),
                0 <= i <= n0,
                self.entries() == record_all(old(self).entries(), ids0.subrange(0, i as int), u, p),
            decreases n0 - i,
        {
            proof {
                let s1 = ids0.subrange(0, i + 1);
                assert(s1.drop_last() =~= ids0.subrange(0, i as int));
                assert(s1.last() == ids0[i as int]);
            }
            self.visit_mut_ident(&module.idents[i]);
            i = i + 1;
        }
        assert(ids0.subrange(0, n0 as int) =~= ids0);
        let ghost h = self.entries();
        let k = table_len(&self.var_decls);
        let mut decls: Vec<ModuleItem> = Vec::new();
        let mut j: usize = 0;
        while j < k
            invariant
                self.entries() == h,
                self.unresolved() == u,
                k == h.len(),
                0 <= j <= k,
                decls@.len() == j,
                module.body@ == old(module).body@,
                module.idents@.len() == n0 + j,
                forall|ii: int| 0 <= ii < n0 ==> module.idents@[ii] == ids0[ii],
                forall|jj: int| 0 <= jj < j ==> #[trigger] is_decl_of(decls@[jj], n0 + jj, h[jj].1),
                forall|jj: int|
                    0 <= jj < j ==> {
                        &&& (#[trigger] module.idents@[n0 + jj]).sym@ == h[jj].0
                        &&& module.idents@[n0 + jj].ctxt == u
                        &&& module.idents@[n0 + jj].binding
                    },
            decreases k - j,
        {
            let (name, from, key) = table_get_index(&self.var_decls, j);
            let idx = module.idents.len();
            module.idents.push(Ident { sym: name, ctxt: self.unresolved_mark, binding: true });
            let init = if key.as_str().unicode_len() == 0 {
                Expr::Require(from)
            } else {
                Expr::Member(Box::new(Expr::Require(from)), key)
            };
            let item = ModuleItem::Var(VarDeclKind::Const, idx, init);
            assert(is_decl_of(item, n0 + j, h[j as int].1));
            decls.push(item);
            j = j + 1;
        }
        decls.append(&mut module.body);
        module.body = decls;
        assert(module.body@.subrange(k as int, module.body@.len() as int) =~= old(module).body@);
        let ghost m1 = *module;
        let rebinder = ToTopLevelVars::new(self.unresolved_mark, self.top_level_mark, &self.var_decls);
        rebinder.visit_mut_module(module);
        assert forall|jj: int| 0 <= jj < k implies has_key(h, #[trigger] m1.idents@[n0 + jj].sym@) by {
            assert(h[jj].0 == m1.idents@[n0 + jj].sym@);
        }
        assert forall|jj: int| 0 <= jj < k implies {
            &&& (#[trigger] module.idents@[n0 + jj]).sym@ == h[jj].0
            &&& module.idents@[n0 + jj].ctxt == old(self).top_level()
            &&& module.idents@[n0 + jj].binding
        } by {
            assert(retagged(m1.idents@[n0 + jj], module.idents@[n0 + jj], u, old(self).top_level(), h));
            assert(has_key(h, m1.idents@[n0 + jj].sym@));
        }
        assert forall|ii: int| 0 <= ii < n0 implies #[trigger] retagged(
            old(module).idents@[ii],
            module.idents@[ii],
            u,
            old(self).top_level(),
            h,
        ) by {
            assert(retagged(m1.idents@[ii], module.idents@[ii], u, old(self).top_level(), h));
        }
        proof {
            let n1 = module.idents@.len();
            if old(module).wf() {
                assert forall|jj: int| 0 <= jj < module.body@.len() implies crate::ast::item_refs_below(
                    #[trigger] module.body@[jj],
                    n1,
                ) by {
                    if jj < k {
                        lemma_decl_refs(module.body@[jj], n0 + jj, h[jj].1, n1);
                    } else {
                        assert(module.body@[jj] == old(module).body@[jj - k]);
                        crate::ast::lemma_item_refs_grow(old(module).body@[jj - k], n0 as nat, n1);
                    }
                }
            }
        }
    }

    /// Meets one occurrence: a free reference to a provided name records
    /// that name's declaration.
    pub fn visit_mut_ident(&mut self, n: &Ident)
        requires
            old(self).wf(),
        ensures
            final(self).wf(),
            final(self).unresolved() == old(self).unresolved(),
            final(self).top_level() == old(self).top_level(),
            final(self).rules() == old(self).rules(),
            final(self).entries() == record(old(self).entries(), *n, old(self).unresolved(), old(self).rules()),
    {
        if n.ctxt == self.unresolved_mark && !n.binding {
            match self.providers.get(&n.sym) {
                Some((from, key)) => {
                    table_insert(&mut self.var_decls, n.sym.clone(), (from, key));
                },
                None => {},
            }
        }
    }
}

proof fn lemma_decl_refs(item: ModuleItem, idx: int, rule: (Seq<char>, Seq<char>), n: nat)
    requires
        is_decl_of(item, idx, rule),
        idx < n,
    ensures
        crate::ast::item_refs_below(item, n),
{
    match item {
        ModuleItem::Var(_, _, init) => {
            match init {
                Expr::Member(obj, _) => {
                    assert(crate::ast::expr_refs_below(*obj, n));
                },
                _ => {},
            }
        },
        _ => {},
    }
}

/// Runs the injector once over `module`: the declarations of the provided
/// names that it references freely are hoisted, in order of first reference,
/// and every free reference to them is rebound to `top_level_mark`.
pub fn transform(module: &mut Module, providers: Providers, unresolved_mark: u64, top_level_mark: u64)
    requires
        providers.wf(),
    ensures
        transformed(*old(module), *final(module), providers@, unresolved_mark, top_level_mark),
        old(module).wf() ==> final(module).wf(),
{
    let mut visitor = Provide::new(providers, unresolved_mark, top_level_mark);
    visitor.visit_mut_module(module);
}

/// The rebinder: moves the free occurrences of the injected names to one
/// top-level scope tag, shared with their declarations.
struct ToTopLevelVars {
    unresolved_mark: u64,
    top_level_mark: u64,
    names: Vec<String>,
    table: Ghost<Seq<(Seq<char>, (Seq<char>, Seq<char>))>>,
}

impl ToTopLevelVars {
    spec fn wf(&self) -> bool {
        &&& self.names@.len() == self.table@.len()
        &&& forall|j: int| 0 <= j < self.names@.len() ==> #[trigger] self.names@[j]@ == self.table@[j].0
    }

    fn new(unresolved_mark: u64, top_level_mark: u64, vars: &IndexMap<String, (String, String)>) -> (r: Self)
        ensures
            r.wf(),
            r.unresolved_mark == unresolved_mark,
            r.top_level_mark == top_level_mark,
            r.table@ == table_entries(*vars),
    {
        let k = table_len(vars);
        let mut names: Vec<String> = Vec::new();
        let mut j: usize = 0;
        while j < k
            invariant
                k == table_entries(*vars).len(),
                0 <= j <= k,
                names@.len() == j,
                forall|jj: int| 0 <= jj < j ==> #[trigger] names@[jj]@ == table_entries(*vars)[jj].0,
            decreases k - j,
        {
            let (name, _from, _key) = table_get_index(vars, j);
            names.push(name);
            j = j + 1;
        }
        ToTopLevelVars { unresolved_mark, top_level_mark, names, table: Ghost(table_entries(*vars)) }
    }

    fn has_name(&self, s: &String) -> (r: bool)
        requires
            self.wf(),
        ensures
            r == has_key(self.table@, s@),
    {
        let mut j: usize = 0;
        while j < self.names.len()
            invariant
                self.wf(),
                0 <= j <= self.names@.len(),
                forall|jj: int| 0 <= jj < j ==> self.table@[jj].0 != s@,
            decreases self.names@.len() - j,
        {
            if self.names[j] == *s {
                assert(self.names@[j as int]@ == self.table@[j as int].0);
                return true;
            }
            j = j + 1;
        }
        false
    }

    /// A free occurrence of an injected name moves to the top-level tag.
    fn visit_mut_ident(&self, i: &mut Ident)
        requires
            self.wf(),
        ensures
            retagged(*old(i), *final(i), self.unresolved_mark, self.top_level_mark, self.table@),
    {
        if i.ctxt == self.unresolved_mark && self.has_name(&i.sym) {
            i.ctxt = self.top_level_mark;
        }
    }

    fn visit_mut_module(&self, m: &mut Module)
        requires
            self.wf(),
        ensures
            final(m).body@ == old(m).body@,
            final(m).idents@.len() == old(m).idents@.len(),
            forall|i: int|
                0 <= i < old(m).idents@.len() ==> #[trigger] retagged(
                    old(m).idents@[i],
                    final(m).idents@[i],
                    self.unresolved_mark,
                    self.top_level_mark,
                    self.table@,
                ),
    {
        let n = m.idents.len();
        let mut i: usize = 0;
        while i < n
            invariant
                n == m.idents@.len(),
                n == old(m).idents@.len(),
                self.wf(),
                0 <= i <= n,
                m.body@ == old(m).body@,
                forall|ii: int|
                    0 <= ii < i ==> #[trigger] retagged(
                        old(m).idents@[ii],
                        m.idents@[ii],
                        self.unresolved_mark,
                        self.top_level_mark,
                        self.table@,
                    ),
                forall|ii: int| i <= ii < n ==> m.idents@[ii] == old(m).idents@[ii],
            decreases n - i,
        {
            self.visit_mut_ident(&mut m.idents[i]);
            i = i + 1;
        }
    }
}

} // verus!
