use vstd::prelude::*;

verus! {

/// One identifier occurrence: its name, its scope tag and whether it is the
/// site that introduces a binding.
pub struct Ident {
    pub sym: String,
    pub ctxt: u64,
    pub binding: bool,
}

pub enum VarDeclKind {
    Const,
    Let,
    Var,
}

/// Expressions. An identifier is an index into the module's occurrence table.
pub enum Expr {
    Ident(usize),
    Str(String),
    Num(u64),
    /// `obj.prop`
    Member(Box<Expr>, String),
    /// `callee(args...)`
    Call(Box<Expr>, Vec<Expr>),
    /// The runtime's module-load primitive applied to a module specifier.
    Require(String),
    Object(Vec<Prop>),
}

/// A property of an object literal.
pub enum Prop {
    /// `{ name }`: key and value written once, as one occurrence.
    Shorthand(usize),
    KeyValue(String, Expr),
}

pub enum ModuleItem {
    Expr(Expr),
    /// `kind name = init;`
    Var(VarDeclKind, usize, Expr),
    /// `function name() { body }`
    Fn(usize, Vec<ModuleItem>),
}

/// A module: its top-level items and the table of its identifier
/// occurrences, in the order a depth-first traversal meets them.
pub struct Module {
    pub body: Vec<ModuleItem>,
    pub idents: Vec<Ident>,
}

/// Every identifier in `e` indexes a table of `n` occurrences.
pub open spec fn expr_refs_below(e: Expr, n: nat) -> bool
    decreases e,
{
    match e {
        Expr::Ident(i) => i < n,
        Expr::Member(obj, _) => expr_refs_below(*obj, n),
        Expr::Call(callee, args) => expr_refs_below(*callee, n) && forall|j: int|
            0 <= j < args@.len() ==> expr_refs_below(#[trigger] args@[j], n),
        Expr::Object(props) => forall|j: int|
            0 <= j < props@.len() ==> prop_refs_below(#[trigger] props@[j], n),
        _ => true,
    }
}

pub open spec fn prop_refs_below(p: Prop, n: nat) -> bool
    decreases p,
{
    match p {
        Prop::Shorthand(i) => i < n,
        Prop::KeyValue(_, v) => expr_refs_below(v, n),
    }
}

pub open spec fn item_refs_below(item: ModuleItem, n: nat) -> bool
    decreases item,
{
    match item {
        ModuleItem::Expr(e) => expr_refs_below(e, n),
        ModuleItem::Var(_, i, init) => i < n && expr_refs_below(init, n),
        ModuleItem::Fn(i, body) => i < n && forall|j: int|
            0 <= j < body@.len() ==> item_refs_below(#[trigger] body@[j], n),
    }
}

pub proof fn lemma_expr_refs_grow(e: Expr, n: nat, m: nat)
    requires
        expr_refs_below(e, n),
        n <= m,
    ensures
        expr_refs_below(e, m),
    decreases e,
{
    match e {
        Expr::Member(obj, _) => lemma_expr_refs_grow(*obj, n, m),
        Expr::Call(callee, args) => {
            lemma_expr_refs_grow(*callee, n, m);
            assert forall|j: int| 0 <= j < args@.len() implies expr_refs_below(#[trigger] args@[j], m) by {
                lemma_expr_refs_grow(args@[j], n, m);
            }
        },
        Expr::Object(props) => {
            assert forall|j: int| 0 <= j < props@.len() implies prop_refs_below(#[trigger] props@[j], m) by {
                lemma_prop_refs_grow(props@[j], n, m);
            }
        },
        _ => {},
    }
}

pub proof fn lemma_prop_refs_grow(p: Prop, n: nat, m: nat)
    requires
        prop_refs_below(p, n),
        n <= m,
    ensures
        prop_refs_below(p, m),
    decreases p,
{
    match p {
        Prop::KeyValue(_, v) => lemma_expr_refs_grow(v, n, m),
        _ => {},
    }
}

/// Growing the occurrence table keeps every reference of an item valid.
pub proof fn lemma_item_refs_grow(item: ModuleItem, n: nat, m: nat)
    requires
        item_refs_below(item, n),
        n <= m,
    ensures
        item_refs_below(item, m),
    decreases item,
{
    match item {
        ModuleItem::Expr(e) => lemma_expr_refs_grow(e, n, m),
        ModuleItem::Var(_, _, init) => lemma_expr_refs_grow(init, n, m),
        ModuleItem::Fn(_, body) => {
            assert forall|j: int| 0 <= j < body@.len() implies item_refs_below(#[trigger] body@[j], m) by {
                lemma_item_refs_grow(body@[j], n, m);
            }
        },
    }
}

impl Module {
    /// Every identifier of every item indexes the occurrence table.
    pub open spec fn wf(&self) -> bool {
        forall|j: int| 0 <= j < self.body@.len() ==> item_refs_below(#[trigger] self.body@[j], self.idents@.len())
    }

    pub fn new() -> (r: Module)
        ensures
            r.wf(),
            r.body@.len() == 0,
            r.idents@.len() == 0,
    {
        Module { body: Vec::new(), idents: Vec::new() }
    }

    /// Appends an occurrence to the table and returns its index.
    pub fn add_ident(&mut self, sym: &str, ctxt: u64, binding: bool) -> (r: usize)
        requires
            old(self).idents@.len() < usize::MAX,
        ensures
            r == old(self).idents@.len(),
            final(self).idents@.len() == r + 1,
            final(self).idents@.subrange(0, r as int) == old(self).idents@,
            final(self).idents@[r as int].sym@ == sym@,
            final(self).idents@[r as int].ctxt == ctxt,
            final(self).idents@[r as int].binding == binding,
            final(self).body@ == old(self).body@,
            old(self).wf() ==> final(self).wf(),
    {
        proof {
            assert forall|j: int| 0 <= j < self.body@.len() && self.wf() implies item_refs_below(
                #[trigger] self.body@[j],
                (self.idents@.len() + 1) as nat,
            ) by {
                lemma_item_refs_grow(self.body@[j], self.idents@.len(), (self.idents@.len() + 1) as nat);
            }
        }
        let r = self.idents.len();
        self.idents.push(Ident { sym: sym.to_owned(), ctxt, binding });
        assert(self.idents@.subrange(0, r as int) =~= old(self).idents@);
        r
    }

    /// Appends a top-level item.
    pub fn push_item(&mut self, item: ModuleItem)
        ensures
            final(self).body@ == old(self).body@.push(item),
            final(self).idents@ == old(self).idents@,
            final(self).wf() == (old(self).wf() && item_refs_below(item, old(self).idents@.len())),
    {
        let ghost old_body = self.body@;
        self.body.push(item);
        proof {
            let n = self.idents@.len();
            if self.wf() {
                assert(self.body@[old_body.len() as int] == item);
                assert forall|j: int| 0 <= j < old_body.len() implies item_refs_below(#[trigger] old_body[j], n) by {
                    assert(self.body@[j] == old_body[j]);
                }
            }
            if old(self).wf() && item_refs_below(item, n) {
                assert forall|j: int| 0 <= j < self.body@.len() implies item_refs_below(#[trigger] self.body@[j], n) by {
                    if j < old_body.len() {
                        assert(self.body@[j] == old_body[j]);
                    }
                }
            }
        }
    }
}

} // verus!
