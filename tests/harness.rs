use mako_provide::harness::{Mode, TestAst, TestUtils, TestUtilsOpts, TOP_LEVEL_MARK, UNRESOLVED_MARK};
use mako_provide::less::LessPlugin;

#[test]
fn default_file_is_a_script() {
    let u = TestUtils::new(TestUtilsOpts { file: None, content: None });
    let js = u.ast.js();
    assert_eq!(js.path, "test.js");
    assert_eq!(js.content, "");
    assert!(!js.is_jsx);
    assert_eq!(js.unresolved_mark, UNRESOLVED_MARK);
    assert_eq!(js.top_level_mark, TOP_LEVEL_MARK);
    assert!(u.context.config.devtool.is_none());
    assert!(matches!(u.context.config.mode, Mode::Development));
}

#[test]
fn jsx_and_tsx_files() {
    for (name, jsx) in [("a.jsx", true), ("b.tsx", true), ("c.ts", false), ("jsx", false)] {
        let mut u = TestUtils::new(TestUtilsOpts { file: Some(name.to_string()), content: Some("x".to_string()) });
        assert_eq!(u.ast.js_mut().is_jsx, jsx, "{}", name);
        assert_eq!(u.ast.js_mut().content, "x");
    }
}

#[test]
fn css_file_in_production() {
    let mut u = TestUtils::gen_css_ast("a { color: red; }\n\n".to_string(), true);
    assert!(matches!(u.context.config.mode, Mode::Production));
    assert_eq!(u.ast.css_mut().path, "test.css");
    assert_eq!(u.css_ast_to_code(), "a { color: red; }");
    let dev = TestUtils::gen_css_ast(String::new(), false);
    assert!(matches!(dev.context.config.mode, Mode::Development));
    assert!(matches!(dev.ast, TestAst::Css(_)));
    assert_eq!(dev.css_ast_to_code(), "");
}

#[test]
fn production_script() {
    let u = TestUtils::with_mode_production(TestUtilsOpts { file: Some("x.css.js".into()), content: None });
    assert!(matches!(u.context.config.mode, Mode::Production));
    assert_eq!(u.ast.js().path, "x.css.js");
}

#[test]
fn less_plugin_handles_less_only() {
    let p = LessPlugin {};
    assert_eq!(p.name(), "less");
    assert!(p.handles("less"));
    assert!(!p.handles("css"));
    assert!(!p.handles("les"));
    assert!(!p.handles(""));
}
