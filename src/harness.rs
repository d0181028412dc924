use vstd::prelude::*;

use crate::text::{ends_with, has_suffix};

verus! {

/// The mark that the resolver gives to every free occurrence of a module.
pub const UNRESOLVED_MARK: u64 = 1;

/// The mark of a module's top-level scope.
pub const TOP_LEVEL_MARK: u64 = 2;

pub enum Mode {
    Development,
    Production,
}

pub struct Config {
    pub devtool: Option<String>,
    pub mode: Mode,
}

/// What a compilation knows of its settings.
pub struct Context {
    pub config: Config,
}

/// The file to set up: its path (default `test.js`) and its text (default
/// empty).
pub struct TestUtilsOpts {
    pub file: Option<String>,
    pub content: Option<String>,
}

/// A script file and the scope marks of its module.
pub struct JsAst {
    pub path: String,
    pub content: String,
    pub is_jsx: bool,
    pub unresolved_mark: u64,
    pub top_level_mark: u64,
}

/// A stylesheet and its text.
pub struct CssAst {
    pub path: String,
    pub code: String,
}

pub enum TestAst {
    Js(JsAst),
    Css(CssAst),
}

pub struct TestUtils {
    pub ast: TestAst,
    pub context: Context,
}

/// The path that `opts` names, or `test.js`.
pub open spec fn path_of(opts: TestUtilsOpts) -> Seq<char> {
    match opts.file {
        Some(f) => f@,
        None => "test.js"@,
    }
}

/// The text that `opts` holds, or nothing.
pub open spec fn content_of(opts: TestUtilsOpts) -> Seq<char> {
    match opts.content {
        Some(c) => c@,
        None => Seq::empty(),
    }
}

/// A file is a stylesheet when its extension is `css`.
pub open spec fn is_css_path(path: Seq<char>) -> bool {
    ends_with(path, ".css"@)
}

pub open spec fn is_jsx_path(path: Seq<char>) -> bool {
    ends_with(path, ".jsx"@) || ends_with(path, ".tsx"@)
}

/// `u` holds the file that `opts` describes, set up under `context`.
pub open spec fn set_up_from(opts: TestUtilsOpts, context: Context, u: TestUtils) -> bool {
    &&& u.context == context
    &&& match u.ast {
        TestAst::Css(a) => is_css_path(path_of(opts)) && a.path@ == path_of(opts) && a.code@
            == content_of(opts),
        TestAst::Js(a) => {
            &&& !is_css_path(path_of(opts))
            &&& a.path@ == path_of(opts)
            &&& a.content@ == content_of(opts)
            &&& a.is_jsx == is_jsx_path(path_of(opts))
            &&& a.unresolved_mark == UNRESOLVED_MARK
            &&& a.top_level_mark == TOP_LEVEL_MARK
        },
    }
}

/// What `str::trim_end` makes of a text.
pub uninterp spec fn trimmed_end(s: Seq<char>) -> Seq<char>;

/// Relies on `str::trim_end`: the text with its trailing whitespace removed,
/// which is a prefix of it.
#[verifier::external_body]
fn trim_end(s: &str) -> (r: String)
    ensures
        r@ == trimmed_end(s@),
        r@.len() <= s@.len(),
        r@ == s@.subrange(0, r@.len() as int),
{
    s.trim_end().to_string()
}

impl TestAst {
    pub fn js(&self) -> (r: &JsAst)
        requires
            self is Js,
        ensures
            *r == self->Js_0,
    {
        match self {
            TestAst::Js(ast) => ast,
            TestAst::Css(_) => unreached(),
        }
    }

    pub fn css_mut(&mut self) -> (r: &mut CssAst)
        requires
            *old(self) is Css,
        ensures
            *r == (*old(self))->Css_0,
            *final(self) == TestAst::Css(*final(r)),
    {
        match self {
            TestAst::Css(ast) => ast,
            TestAst::Js(_) => unreached(),
        }
    }

    pub fn js_mut(&mut self) -> (r: &mut JsAst)
        requires
            *old(self) is Js,
        ensures
            *r == (*old(self))->Js_0,
            *final(self) == TestAst::Js(*final(r)),
    {
        match self {
            TestAst::Js(ast) => ast,
            TestAst::Css(_) => unreached(),
        }
    }
}

impl TestUtils {
    pub fn new(opts: TestUtilsOpts) -> (r: Self)
        ensures
            set_up_from(opts, r.context, r),
            r.context.config.devtool is None,
            r.context.config.mode == Mode::Development,
    {
        let context = Context { config: Config { devtool: None, mode: Mode::Development } };
        TestUtils::with_context(opts, context)
    }

    pub fn with_mode_production(opts: TestUtilsOpts) -> (r: Self)
        ensures
            set_up_from(opts, r.context, r),
            r.context.config.devtool is None,
            r.context.config.mode == Mode::Production,
    {
        let context = Context { config: Config { devtool: None, mode: Mode::Production } };
        TestUtils::with_context(opts, context)
    }

    /// Sets up the file that `opts` describes: a stylesheet when its
    /// extension is `css`, else a script, JSX when it ends in `.jsx` or
    /// `.tsx`.
    pub fn with_context(opts: TestUtilsOpts, context: Context) -> (r: Self)
        ensures
            set_up_from(opts, context, r),
    {
        proof {
            reveal_strlit("test.js");
            reveal_strlit(".css");
            reveal_strlit(".jsx");
            reveal_strlit(".tsx");
        }
        let ghost o = opts;
        let file = match opts.file {
            Some(file) => file,
            None => "test.js".to_owned(),
        };
        let is_jsx = has_suffix(file.as_str(), ".jsx") || has_suffix(file.as_str(), ".tsx");
        let is_css = has_suffix(file.as_str(), ".css");
        let content = match opts.content {
            Some(content) => content,
            None => String::new(),
        };
        let ast = if is_css {
            TestAst::Css(CssAst { path: file, code: content })
        } else {
            TestAst::Js(
                JsAst {
                    path: file,
                    content,
                    is_jsx,
                    unresolved_mark: UNRESOLVED_MARK,
                    top_level_mark: TOP_LEVEL_MARK,
                },
            )
        };
        TestUtils { ast, context }
    }

    /// Sets up `test.css` holding `content`, in production mode when
    /// `is_prod`.
    pub fn gen_css_ast(content: String, is_prod: bool) -> (r: Self)
        ensures
            r.ast is Css,
            r.ast->Css_0.path@ == "test.css"@,
            r.ast->Css_0.code@ == content@,
            r.context.config.mode == (if is_prod { Mode::Production } else { Mode::Development }),
            r.context.config.devtool is None,
    {
        proof {
            reveal_strlit("test.css");
            reveal_strlit(".css");
        }
        let opts = TestUtilsOpts { file: Some("test.css".to_owned()), content: Some(content) };
        assert("test.css"@.subrange(4, 8) =~= ".css"@);
        if is_prod {
            Self::with_mode_production(opts)
        } else {
            Self::new(opts)
        }
    }

    /// The stylesheet's text without trailing whitespace.
    pub fn css_ast_to_code(&self) -> (r: String)
        requires
            self.ast is Css,
        ensures
            r@ == trimmed_end(self.ast->Css_0.code@),
            r@.len() <= self.ast->Css_0.code@.len(),
            r@ == self.ast->Css_0.code@.subrange(0, r@.len() as int),
    {
        match &self.ast {
            TestAst::Css(ast) => trim_end(ast.code.as_str()),
            TestAst::Js(_) => unreached(),
        }
    }
}

} // verus!
