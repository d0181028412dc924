use mako_provide::ast::{Expr, Ident, Module, ModuleItem, Prop, VarDeclKind};
use mako_provide::harness::{TOP_LEVEL_MARK, UNRESOLVED_MARK};
use mako_provide::provide::{transform, Provide};
use mako_provide::providers::Providers;

const FN_SCOPE: u64 = 7;

fn providers() -> Providers {
    let mut providers = Providers::new();
    providers.insert("process".into(), "process".into(), "".into());
    providers.insert("Buffer".into(), "buffer".into(), "Buffer".into());
    providers
}

fn print_expr(m: &Module, e: &Expr, indent: usize) -> String {
    match e {
        Expr::Ident(i) => m.idents[*i].sym.clone(),
        Expr::Str(s) => format!("'{}'", s),
        Expr::Num(n) => format!("{}", n),
        Expr::Member(obj, prop) => format!("{}.{}", print_expr(m, obj, indent), prop),
        Expr::Call(callee, args) => {
            let args: Vec<String> = args.iter().map(|a| print_expr(m, a, indent)).collect();
            format!("{}({})", print_expr(m, callee, indent), args.join(", "))
        }
        Expr::Require(from) => format!("__mako_require__(\"{}\")", from),
        Expr::Object(props) => {
            let pad = " ".repeat(indent + 4);
            let props: Vec<String> = props
                .iter()
                .map(|p| match p {
                    Prop::Shorthand(i) => format!("{}{}", pad, m.idents[*i].sym),
                    Prop::KeyValue(k, v) => format!("{}{}: {}", pad, k, print_expr(m, v, indent + 4)),
                })
                .collect();
            format!("{{\n{}\n{}}}", props.join(",\n"), " ".repeat(indent))
        }
    }
}

fn print_item(m: &Module, item: &ModuleItem, indent: usize) -> String {
    let pad = " ".repeat(indent);
    match item {
        ModuleItem::Expr(e) => format!("{}{};", pad, print_expr(m, e, indent)),
        ModuleItem::Var(kind, name, init) => {
            let kw = match kind {
                VarDeclKind::Const => "const",
                VarDeclKind::Let => "let",
                VarDeclKind::Var => "var",
            };
            format!("{}{} {} = {};", pad, kw, m.idents[*name].sym, print_expr(m, init, indent))
        }
        ModuleItem::Fn(name, body) => {
            let inner: Vec<String> = body.iter().map(|s| print_item(m, s, indent + 4)).collect();
            format!("{}function {}() {{\n{}\n{}}}", pad, m.idents[*name].sym, inner.join("\n"), pad)
        }
    }
}

fn print_module(m: &Module) -> String {
    let items: Vec<String> = m.body.iter().map(|s| print_item(m, s, 0)).collect();
    items.join("\n")
}

fn call(callee: Expr, args: Vec<Expr>) -> Expr {
    Expr::Call(Box::new(callee), args)
}

fn member(obj: Expr, prop: &str) -> Expr {
    Expr::Member(Box::new(obj), prop.to_string())
}

/// console.log(process); console.log(process.env); Buffer.from('foo');
/// function foo() { let process = 1; console.log(process); let Buffer = 'b'; Buffer.from('foo'); }
fn scenario_normal() -> Module {
    let u = UNRESOLVED_MARK;
    let mut m = Module::new();
    let c1 = m.add_ident("console", u, false);
    let proc1 = m.add_ident("process", u, false);
    m.push_item(ModuleItem::Expr(call(member(Expr::Ident(c1), "log"), vec![Expr::Ident(proc1)])));
    let c2 = m.add_ident("console", u, false);
    let proc2 = m.add_ident("process", u, false);
    m.push_item(ModuleItem::Expr(call(member(Expr::Ident(c2), "log"), vec![member(Expr::Ident(proc2), "env")])));
    let b1 = m.add_ident("Buffer", u, false);
    m.push_item(ModuleItem::Expr(call(member(Expr::Ident(b1), "from"), vec![Expr::Str("foo".into())])));
    let foo = m.add_ident("foo", TOP_LEVEL_MARK, true);
    let proc3 = m.add_ident("process", FN_SCOPE, true);
    let c3 = m.add_ident("console", u, false);
    let proc4 = m.add_ident("process", FN_SCOPE, false);
    let b2 = m.add_ident("Buffer", FN_SCOPE, true);
    let b3 = m.add_ident("Buffer", FN_SCOPE, false);
    m.push_item(ModuleItem::Fn(
        foo,
        vec![
            ModuleItem::Var(VarDeclKind::Let, proc3, Expr::Num(1)),
            ModuleItem::Expr(call(member(Expr::Ident(c3), "log"), vec![Expr::Ident(proc4)])),
            ModuleItem::Var(VarDeclKind::Let, b2, Expr::Str("b".into())),
            ModuleItem::Expr(call(member(Expr::Ident(b3), "from"), vec![Expr::Str("foo".into())])),
        ],
    ));
    m
}

/// console.log({process});
fn scenario_shorthand() -> Module {
    let u = UNRESOLVED_MARK;
    let mut m = Module::new();
    let c = m.add_ident("console", u, false);
    let p = m.add_ident("process", u, false);
    m.push_item(ModuleItem::Expr(call(member(Expr::Ident(c), "log"), vec![Expr::Object(vec![Prop::Shorthand(p)])])));
    m
}

fn run(mut m: Module) -> String {
    transform(&mut m, providers(), UNRESOLVED_MARK, TOP_LEVEL_MARK);
    print_module(&m)
}

fn tags(m: &Module) -> Vec<(String, u64, bool)> {
    m.idents.iter().map(|i: &Ident| (i.sym.clone(), i.ctxt, i.binding)).collect()
}

#[test]
fn test_provide_normal() {
    assert_eq!(
        run(scenario_normal()),
        r#"
const process = __mako_require__("process");
const Buffer = __mako_require__("buffer").Buffer;
console.log(process);
console.log(process.env);
Buffer.from('foo');
function foo() {
    let process = 1;
    console.log(process);
    let Buffer = 'b';
    Buffer.from('foo');
}
            "#
        .trim()
    );
}

#[test]
fn test_provide_in_shorthand_notation() {
    assert_eq!(
        run(scenario_shorthand()),
        r#"
const process = __mako_require__("process");
console.log({
    process
});
            "#
        .trim()
    );
}

#[test]
fn shadowed_occurrences_keep_their_tags() {
    let before = scenario_normal();
    let old_tags = tags(&before);
    let mut m = before;
    transform(&mut m, providers(), UNRESOLVED_MARK, TOP_LEVEL_MARK);
    let new_tags = tags(&m);
    for (i, old) in old_tags.iter().enumerate() {
        if old.1 != UNRESOLVED_MARK {
            assert_eq!(&new_tags[i], old);
        } else if old.0 == "process" || old.0 == "Buffer" {
            assert_eq!(new_tags[i], (old.0.clone(), TOP_LEVEL_MARK, false));
        } else {
            assert_eq!(&new_tags[i], old);
        }
    }
    // the two declarations' own names, bound at top level
    assert_eq!(new_tags.len(), old_tags.len() + 2);
    assert_eq!(new_tags[old_tags.len()], ("process".to_string(), TOP_LEVEL_MARK, true));
    assert_eq!(new_tags[old_tags.len() + 1], ("Buffer".to_string(), TOP_LEVEL_MARK, true));
}

#[test]
fn many_references_give_one_declaration() {
    let u = UNRESOLVED_MARK;
    let mut m = Module::new();
    for _ in 0..5 {
        let p = m.add_ident("process", u, false);
        m.push_item(ModuleItem::Expr(Expr::Ident(p)));
    }
    let before = m.body.len();
    transform(&mut m, providers(), u, TOP_LEVEL_MARK);
    assert_eq!(m.body.len(), before + 1);
    assert!(print_module(&m).starts_with("const process = __mako_require__(\"process\");\nprocess;"));
    assert_eq!(print_module(&m).matches("const process").count(), 1);
}

#[test]
fn declarations_follow_first_reference_order() {
    let u = UNRESOLVED_MARK;
    let mut m = Module::new();
    let b = m.add_ident("Buffer", u, false);
    m.push_item(ModuleItem::Expr(Expr::Ident(b)));
    let p = m.add_ident("process", u, false);
    m.push_item(ModuleItem::Expr(Expr::Ident(p)));
    let b2 = m.add_ident("Buffer", u, false);
    m.push_item(ModuleItem::Expr(Expr::Ident(b2)));
    transform(&mut m, providers(), u, TOP_LEVEL_MARK);
    assert_eq!(
        print_module(&m),
        "const Buffer = __mako_require__(\"buffer\").Buffer;\nconst process = __mako_require__(\"process\");\nBuffer;\nprocess;\nBuffer;"
    );
}

#[test]
fn running_twice_is_running_once() {
    let mut once = scenario_normal();
    transform(&mut once, providers(), UNRESOLVED_MARK, TOP_LEVEL_MARK);
    let mut twice = scenario_normal();
    transform(&mut twice, providers(), UNRESOLVED_MARK, TOP_LEVEL_MARK);
    transform(&mut twice, providers(), UNRESOLVED_MARK, TOP_LEVEL_MARK);
    assert_eq!(print_module(&once), print_module(&twice));
    assert_eq!(tags(&once), tags(&twice));
}

#[test]
fn shorthand_stays_shorthand() {
    let mut m = scenario_shorthand();
    transform(&mut m, providers(), UNRESOLVED_MARK, TOP_LEVEL_MARK);
    match &m.body[1] {
        ModuleItem::Expr(Expr::Call(_, args)) => match &args[0] {
            Expr::Object(props) => assert!(matches!(props[0], Prop::Shorthand(1))),
            _ => panic!("argument is no longer an object"),
        },
        _ => panic!("call moved"),
    }
    assert_eq!(m.idents[1].ctxt, TOP_LEVEL_MARK);
}

#[test]
fn unknown_or_absent_names_hoist_nothing() {
    let u = UNRESOLVED_MARK;
    let mut m = Module::new();
    let w = m.add_ident("window", u, false);
    m.push_item(ModuleItem::Expr(Expr::Ident(w)));
    transform(&mut m, providers(), u, TOP_LEVEL_MARK);
    assert_eq!(print_module(&m), "window;");
    assert_eq!(m.idents[0].ctxt, u);
    let mut empty = Module::new();
    transform(&mut empty, providers(), u, TOP_LEVEL_MARK);
    assert!(empty.body.is_empty());
    assert!(empty.idents.is_empty());
}

#[test]
fn visitor_runs_over_a_module() {
    let mut visitor = Provide::new(providers(), UNRESOLVED_MARK, TOP_LEVEL_MARK);
    let mut m = scenario_shorthand();
    visitor.visit_mut_module(&mut m);
    assert_eq!(m.body.len(), 2);
}

#[test]
fn provider_insert_replaces_rule() {
    let mut p = Providers::new();
    assert!(p.get(&"process".to_string()).is_none());
    p.insert("process".into(), "process".into(), "".into());
    p.insert("process".into(), "node:process".into(), "default".into());
    assert_eq!(p.get(&"process".to_string()), Some(("node:process".to_string(), "default".to_string())));
    assert!(p.get(&"Buffer".to_string()).is_none());
}
