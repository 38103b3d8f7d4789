use crate::conversions::{ToCustomTransformers, ToEnvs};
use crate::ast::{element_view, DocumentView, ElementView, Expression, ExpressionView, AST};
use crate::display_syntax::{opt_string_view, render, DisplaySyntax, DisplaySyntaxDebugOptions};
use crate::errors::{ParseError, ParseErrorView};
use crate::span::Span;
use crate::syntax_error::{SyntaxError, SyntaxErrorView};
use crate::text::lowercase;
use crate::tokenizer::{tokenize_spec, Tokenizer};
use crate::text::lower_of;
use crate::transformers::{
    declared_type,
    env_lookup,
    lookup_last,
    env_view,
    registry_entries,
    resolve_variable,
    EnvView,
    Parser,
    TransformerKind,
    TransformerList,
    Value,
    ValueType,
};
use vstd::prelude::*;

verus! {

/// What parsing a source text gives: its document, or the first syntax error.
pub open spec fn parse_source(s: Seq<char>) -> Result<DocumentView, SyntaxErrorView> {
    match tokenize_spec(s) {
        Err(e) => Err(e),
        Ok(t) => crate::ast::parse_document(t),
    }
}

/// Whether `r` is what parsing `s` gives.
pub open spec fn parse_outcome(s: Seq<char>, r: Result<Expression, SyntaxError>) -> bool {
    match r {
        Ok(e) => e is Document && parse_source(s) == Ok::<DocumentView, SyntaxErrorView>(
            e->Document_0@,
        ),
        Err(e) => parse_source(s) == Err::<DocumentView, SyntaxErrorView>(e@),
    }
}

/// Tokenizes and parses a source text.
pub fn parse(payload: &str) -> (r: Result<Expression, SyntaxError>)
    ensures
        parse_outcome(payload@, r),
{
    let tokens = match Tokenizer::parse(payload) {
        Ok(tokens) => tokens,
        Err(e) => {
            return Err(e);
        },
    };
    AST::parse(tokens)
}

/// Parsing keeps no state between calls: two parses of the same source give structurally
/// identical trees, or the same error.
pub proof fn lemma_parse_idempotent(
    s: Seq<char>,
    r1: Result<Expression, SyntaxError>,
    r2: Result<Expression, SyntaxError>,
)
    requires
        parse_outcome(s, r1),
        parse_outcome(s, r2),
    ensures
        crate::ast::result_view(r1) == crate::ast::result_view(r2),
{
}

/// Resolved values by name, each name once.
pub type ConfigView = Seq<(Seq<char>, Value)>;

pub open spec fn config_view(c: Seq<(String, ValueType)>) -> ConfigView {
    c.map_values(|e: (String, ValueType)| (e.0@, e.1@))
}

pub open spec fn names_unique(c: ConfigView) -> bool {
    forall|p: int, q: int| 0 <= p < c.len() && 0 <= q < c.len() && c[p].0 == c[q].0 ==> p == q
}

/// `c` with `name` mapped to `value`: a name already there keeps its place.
pub open spec fn config_insert(c: ConfigView, name: Seq<char>, value: Value) -> ConfigView {
    if exists|p: int| 0 <= p < c.len() && c[p].0 == name {
        c.update(choose|p: int| 0 <= p < c.len() && c[p].0 == name, (name, value))
    } else {
        c.push((name, value))
    }
}

/// The values of the declarations among `elements`, in order, a later declaration of a
/// name replacing the value of an earlier one; or the first error.
pub open spec fn resolve_elements(
    entries: Seq<(Seq<char>, TransformerKind)>,
    elements: Seq<ElementView>,
    env: EnvView,
) -> Result<ConfigView, ParseErrorView>
    decreases elements.len(),
{
    if elements.len() == 0 {
        Ok(Seq::empty())
    } else {
        match resolve_elements(entries, elements.drop_last(), env) {
            Err(e) => Err(e),
            Ok(acc) => match elements.last() {
                ElementView::Variable(v) => match resolve_variable(entries, v, env) {
                    Err(e) => Err(e),
                    Ok(val) => Ok(config_insert(acc, v.name, val)),
                },
                _ => Ok(acc),
            },
        }
    }
}

/// The configuration that a document resolves to, for an environment and custom type names.
pub open spec fn resolve_document(
    doc: DocumentView,
    env: EnvView,
    customs: Seq<Seq<char>>,
) -> Result<ConfigView, ParseErrorView> {
    resolve_elements(registry_entries(customs), doc.elements, env)
}

/// The registry answers a lower-cased name with the custom transformer where a custom
/// name lower-cases to it, else with the built-in one.
pub proof fn lemma_registry_lookup(customs: Seq<Seq<char>>, key: Seq<char>)
    ensures
        lookup_last(registry_entries(customs), key) == (if exists|i: int|
            0 <= i < customs.len() && lower_of(customs[i]) == key {
            Some(TransformerKind::Custom)
        } else {
            lookup_last(registry_entries(Seq::empty()), key)
        }),
    decreases customs.len(),
{
    let all = registry_entries(customs);
    if customs.len() == 0 {
        assert(customs =~= Seq::<Seq<char>>::empty());
    } else {
        let init = customs.drop_last();
        assert(all.drop_last() =~= registry_entries(init));
        lemma_registry_lookup(init, key);
        if lower_of(customs.last()) != key {
            if exists|i: int| 0 <= i < customs.len() && lower_of(customs[i]) == key {
                let i = choose|i: int| 0 <= i < customs.len() && lower_of(customs[i]) == key;
                assert(i < customs.len() - 1);
                assert(init[i] == customs[i]);
            }
            if exists|i: int| 0 <= i < init.len() && lower_of(init[i]) == key {
                let i = choose|i: int| 0 <= i < init.len() && lower_of(init[i]) == key;
                assert(customs[i] == init[i]);
            }
        } else {
            assert(0 <= customs.len() - 1 < customs.len() && lower_of(customs[customs.len() - 1]) == key);
        }
    }
}

proof fn lemma_resolve_elements_same(
    e1: Seq<(Seq<char>, TransformerKind)>,
    e2: Seq<(Seq<char>, TransformerKind)>,
    elements: Seq<ElementView>,
    env1: EnvView,
    env2: EnvView,
)
    requires
        forall|k: Seq<char>| lookup_last(e1, k) == lookup_last(e2, k),
        forall|n: Seq<char>| env_lookup(env1, n) == env_lookup(env2, n),
    ensures
        resolve_elements(e1, elements, env1) == resolve_elements(e2, elements, env2),
    decreases elements.len(),
{
    if elements.len() > 0 {
        lemma_resolve_elements_same(e1, e2, elements.drop_last(), env1, env2);
        if let ElementView::Variable(v) = elements.last() {
            let key = lower_of(declared_type(v));
            assert(lookup_last(e1, key) == lookup_last(e2, key));
            assert(env_lookup(env1, v.name) == env_lookup(env2, v.name));
            assert(resolve_variable(e1, v, env1) == resolve_variable(e2, v, env2));
        }
    }
}

/// Resolution is deterministic: it depends on the document, on the environment only as a
/// map (for each name, the last pair that names it) and on the custom type names only as a
/// set; so the same document, environment and custom types always give the same result.
pub proof fn lemma_resolution_deterministic(
    doc: DocumentView,
    env1: EnvView,
    env2: EnvView,
    customs1: Seq<Seq<char>>,
    customs2: Seq<Seq<char>>,
)
    requires
        forall|n: Seq<char>| env_lookup(env1, n) == env_lookup(env2, n),
        customs1.to_set() == customs2.to_set(),
    ensures
        resolve_document(doc, env1, customs1) == resolve_document(doc, env2, customs2),
{
    let e1 = registry_entries(customs1);
    let e2 = registry_entries(customs2);
    assert forall|k: Seq<char>| lookup_last(e1, k) == lookup_last(e2, k) by {
        lemma_registry_lookup(customs1, k);
        lemma_registry_lookup(customs2, k);
        if exists|i: int| 0 <= i < customs1.len() && lower_of(customs1[i]) == k {
            let i = choose|i: int| 0 <= i < customs1.len() && lower_of(customs1[i]) == k;
            assert(customs1.to_set().contains(customs1[i]));
            assert(customs2.to_set().contains(customs1[i]));
            assert(customs2.contains(customs1[i]));
        }
        if exists|i: int| 0 <= i < customs2.len() && lower_of(customs2[i]) == k {
            let i = choose|i: int| 0 <= i < customs2.len() && lower_of(customs2[i]) == k;
            assert(customs2.to_set().contains(customs2[i]));
            assert(customs1.to_set().contains(customs2[i]));
            assert(customs1.contains(customs2[i]));
        }
    }
    lemma_resolve_elements_same(e1, e2, doc.elements, env1, env2);
}

pub open spec fn strings_view(v: Seq<String>) -> Seq<Seq<char>> {
    v.map_values(|s: String| s@)
}

/// The error behind a `ProgramError`.
#[derive(Debug)]
pub enum ErrorCause {
    Syntax(SyntaxError),
    Parse(ParseError),
}

/// A failure of `create_program` or of `Program::parse`, with the source and location that
/// a diagnostic needs.
#[derive(Debug)]
pub struct ProgramError {
    pub message: String,
    pub span: Option<Span>,
    pub source: String,
    pub location: Option<String>,
    pub cause: Option<ErrorCause>,
}

/// Marks the evaluation step of a program.
pub struct Evaluate;

/// Options of the evaluation step; there are none yet.
pub struct EvaluateOptions;

/// Environment values to resolve a program against, by name.
pub struct ParseOptions {
    pub environment_values: Vec<(String, String)>,
}

/// A parsed source: where it came from, its text, and its syntax tree.
#[derive(Debug)]
pub struct Program {
    pub location: Option<String>,
    pub source: String,
    pub ast: Expression,
}

pub open spec fn syntax_message(e: SyntaxErrorView) -> Seq<char> {
    "SyntaxError: "@ + e.message
}

pub open spec fn parse_message(e: ParseErrorView) -> Seq<char> {
    "ParseError: "@ + e.message
}

pub open spec fn not_document_message() -> Seq<char> {
    "AST Parser error, the ast expressions is not Expression::Document"@
}

/// Whether `e` reports the syntax error `se` of `source` found at `location`.
pub open spec fn reports_syntax(
    e: ProgramError,
    se: SyntaxErrorView,
    source: Seq<char>,
    location: Option<Seq<char>>,
) -> bool {
    &&& e.message@ == syntax_message(se)
    &&& e.span == Some(se.span)
    &&& e.source@ == source
    &&& opt_string_view(e.location) == location
    &&& match e.cause {
        Some(ErrorCause::Syntax(c)) => c@ == se,
        _ => false,
    }
}

/// Whether `e` reports the resolution error `pe` of `source` found at `location`.
pub open spec fn reports_parse(
    e: ProgramError,
    pe: ParseErrorView,
    source: Seq<char>,
    location: Option<Seq<char>>,
) -> bool {
    &&& e.message@ == parse_message(pe)
    &&& e.span == Some(pe.span)
    &&& e.source@ == source
    &&& opt_string_view(e.location) == location
    &&& match e.cause {
        Some(ErrorCause::Parse(c)) => c@ == pe,
        _ => false,
    }
}

pub open spec fn opt_str_view(o: Option<&str>) -> Option<Seq<char>> {
    match o {
        Some(s) => Some(s@),
        None => None,
    }
}

fn opt_to_string(o: Option<&str>) -> (r: Option<String>)
    ensures
        opt_string_view(r) == opt_str_view(o),
{
    match o {
        Some(s) => Some(s.to_owned()),
        None => None,
    }
}

fn clone_opt_string(o: &Option<String>) -> (r: Option<String>)
    ensures
        opt_string_view(r) == opt_string_view(*o),
{
    match o {
        Some(s) => Some(s.clone()),
        None => None,
    }
}

/// Parses `source` into a program, or reports the first syntax error with its context.
pub fn create_program(source: &str, location: Option<&str>) -> (r: Result<Program, ProgramError>)
    ensures
        match r {
            Ok(p) => {
                &&& p.source@ == source@
                &&& opt_string_view(p.location) == opt_str_view(location)
                &&& p.ast is Document
                &&& parse_source(source@) == Ok::<DocumentView, SyntaxErrorView>(
                    p.ast->Document_0@,
                )
            },
            Err(e) => match parse_source(source@) {
                Err(se) => reports_syntax(e, se, source@, opt_str_view(location)),
                Ok(_) => false,
            },
        },
{
    match parse(source) {
        Ok(ast) => Ok(Program { location: opt_to_string(location), source: source.to_owned(), ast }),
        Err(error) => {
            let mut message = "SyntaxError: ".to_owned();
            message.append(error.message.as_str());
            Err(
                ProgramError {
                    message,
                    span: Some(error.span),
                    source: source.to_owned(),
                    location: opt_to_string(location),
                    cause: Some(ErrorCause::Syntax(error)),
                },
            )
        },
    }
}

/// Wraps a resolution error with the program's source and location.
pub fn display_program_error(error: ParseError, source: &String, location: &Option<String>) -> (r:
    ProgramError)
    ensures
        reports_parse(r, error@, source@, opt_string_view(*location)),
{
    let mut message = "ParseError: ".to_owned();
    message.append(error.message.as_str());
    ProgramError {
        message,
        span: Some(error.span),
        source: source.clone(),
        location: clone_opt_string(location),
        cause: Some(ErrorCause::Parse(error)),
    }
}

/// Keys `name` to `value` in `configs`, in place where the name is already there.
fn insert_config(configs: &mut Vec<(String, ValueType)>, name: String, value: ValueType)
    requires
        names_unique(config_view(old(configs)@)),
    ensures
        names_unique(config_view(final(configs)@)),
        config_view(final(configs)@) == config_insert(config_view(old(configs)@), name@, value@),
{
    let ghost o = config_view(configs@);
    let ghost v = value@;
    let ghost nm = name@;
    let mut p: usize = 0;
    while p < configs.len()
        invariant
            p <= configs.len(),
            configs@ == old(configs)@,
            o == config_view(configs@),
            v == value@,
            nm == name@,
            names_unique(o),
            forall|q: int| 0 <= q < p ==> o[q].0 != name@,
        decreases configs.len() - p,
    {
        if configs[p].0 == name {
            proof {
                assert(o[p as int] == (configs@[p as int].0@, configs@[p as int].1@));
                assert(0 <= p < o.len() && o[p as int].0 == name@);
                let c = choose|q: int| 0 <= q < o.len() && o[q].0 == name@;
                assert(0 <= c < o.len() && o[c].0 == name@);
                assert(c == p);
            }
            configs.set(p, (name, value));
            let ghost n = config_view(configs@);
            assert(n =~= o.update(p as int, (nm, v)));
            assert forall|q: int| 0 <= q < n.len() implies n[q].0 == o[q].0 by {}
            return;
        }
        p = p + 1;
    }
    configs.push((name, value));
    assert(config_view(configs@) =~= o.push((name@, v)));
    assert(!(exists|q: int| 0 <= q < o.len() && o[q].0 == name@));
}

/// Once a prefix of the elements fails, resolution fails with that error.
proof fn lemma_resolve_error_stays(
    entries: Seq<(Seq<char>, TransformerKind)>,
    elements: Seq<ElementView>,
    k: int,
    env: EnvView,
)
    requires
        0 <= k <= elements.len(),
        resolve_elements(entries, elements.take(k), env) is Err,
    ensures
        resolve_elements(entries, elements, env) == resolve_elements(entries, elements.take(k), env),
    decreases elements.len(),
{
    if k == elements.len() {
        assert(elements.take(k) =~= elements);
    } else {
        assert(elements.drop_last().take(k) =~= elements.take(k));
        lemma_resolve_error_stays(entries, elements.drop_last(), k, env);
    }
}

/// The registry of the built-in transformers and of the custom type names.
fn build_registry(custom_transformers: &Vec<String>) -> (r: TransformerList)
    ensures
        r.entries() == registry_entries(strings_view(custom_transformers@)),
{
    let mut list = TransformerList::new();
    list.insert("unknown".to_owned(), TransformerKind::Str);
    list.insert("str".to_owned(), TransformerKind::Str);
    list.insert("string".to_owned(), TransformerKind::Str);
    list.insert("number".to_owned(), TransformerKind::Number);
    list.insert("bool".to_owned(), TransformerKind::Boolean);
    list.insert("boolean".to_owned(), TransformerKind::Boolean);
    let ghost base = list.entries();
    let ghost customs = strings_view(custom_transformers@);
    let mut i: usize = 0;
    while i < custom_transformers.len()
        invariant
            i <= custom_transformers.len(),
            customs == strings_view(custom_transformers@),
            list.entries() == base + customs.take(i as int).map_values(
                |c: Seq<char>| (crate::text::lower_of(c), TransformerKind::Custom),
            ),
        decreases custom_transformers.len() - i,
    {
        let key = lowercase(custom_transformers[i].as_str());
        list.insert(key, TransformerKind::Custom);
        i = i + 1;
        assert(customs.take(i as int) =~= customs.take(i - 1).push(customs[i - 1]));
        assert(list.entries() =~= base + customs.take(i as int).map_values(
            |c: Seq<char>| (crate::text::lower_of(c), TransformerKind::Custom),
        ));
    }
    assert(customs.take(i as int) =~= customs);
    assert(list.entries() =~= registry_entries(customs));
    list
}

impl ProgramError {
    /// The rendered diagnostic, as `get_message` gives it.
    pub fn to_string(&self) -> (r: String)
        requires
            self.source@.len() < usize::MAX,
        ensures
            r@ == self.get_message_spec(),
    {
        self.get_message()
    }

    /// What `get_message` renders.
    pub open spec fn get_message_spec(&self) -> Seq<char> {
        match self.cause {
            Some(ErrorCause::Syntax(e)) => render(
                syntax_message(e@),
                e.span,
                self.source@,
                opt_string_view(self.location),
                false,
                true,
            ),
            Some(ErrorCause::Parse(e)) => render(
                parse_message(e@),
                e.span,
                self.source@,
                opt_string_view(self.location),
                false,
                true,
            ),
            None => self.message@,
        }
    }

    /// The rendered diagnostic: for a syntax or resolution error, the kind and message,
    /// the source lines that its span touches, and where it starts; else the message.
    pub fn get_message(&self) -> (r: String)
        requires
            self.source@.len() < usize::MAX,
        ensures
            r@ == self.get_message_spec(),
    {
        let mut debug_options = DisplaySyntaxDebugOptions::new();
        debug_options.location = clone_opt_string(&self.location);
        match &self.cause {
            Some(ErrorCause::Syntax(e)) => {
                let mut message = "SyntaxError: ".to_owned();
                message.append(e.message.as_str());
                let display = DisplaySyntax::new(message, e.span);
                display.debug_payload_configurable(self.source.as_str(), &debug_options)
            },
            Some(ErrorCause::Parse(e)) => {
                let mut message = "ParseError: ".to_owned();
                message.append(e.message.as_str());
                let display = DisplaySyntax::new(message, e.span);
                display.debug_payload_configurable(self.source.as_str(), &debug_options)
            },
            None => self.message.clone(),
        }
    }
}

impl Program {
    /// Resolves every declaration against `values` (name, optional value; a later pair wins)
    /// and the custom type names, or reports the first error with the program's context.
    pub fn parse<T: ToEnvs, D: ToCustomTransformers>(&self, values: T, custom_transformers: D) -> (r:
        Result<Vec<(String, ValueType)>, ProgramError>)
        ensures
            match self.ast@ {
                ExpressionView::Document(d) => match resolve_document(
                    d,
                    values.envs_view(),
                    custom_transformers.names_view(),
                ) {
                    Ok(c) => r is Ok && config_view(r->Ok_0@) == c,
                    Err(pe) => r is Err && reports_parse(
                        r->Err_0,
                        pe,
                        self.source@,
                        opt_string_view(self.location),
                    ),
                },
                _ => r is Err && r->Err_0.message@ == not_document_message() && r->Err_0.cause is None,
            },
    {
        let envs = values.to_envs();
        let customs = custom_transformers.to_vec();
        match self.parse_unwrap(&envs, &customs) {
            Ok(c) => Ok(c),
            Err(Some(e)) => Err(display_program_error(e, &self.source, &self.location)),
            Err(None) => Err(
                ProgramError {
                    message: "AST Parser error, the ast expressions is not Expression::Document".to_owned(),
                    span: None,
                    source: self.source.clone(),
                    location: clone_opt_string(&self.location),
                    cause: None,
                },
            ),
        }
    }

    /// The resolution itself: `Err(None)` where the tree is not a document.
    fn parse_unwrap(&self, values: &Vec<(String, Option<String>)>, custom_transformers: &Vec<String>) -> (r:
        Result<Vec<(String, ValueType)>, Option<ParseError>>)
        ensures
            match self.ast@ {
                ExpressionView::Document(d) => match resolve_document(
                    d,
                    env_view(values@),
                    strings_view(custom_transformers@),
                ) {
                    Ok(c) => r is Ok && config_view(r->Ok_0@) == c,
                    Err(pe) => r is Err && r->Err_0 is Some && r->Err_0->Some_0@ == pe,
                },
                _ => r == Err::<Vec<(String, ValueType)>, Option<ParseError>>(None),
            },
    {
        let transformer_list = build_registry(custom_transformers);
        let document = match self.ast.as_document() {
            Some(document) => document,
            None => {
                return Err(None);
            },
        };
        let ghost entries = transformer_list.entries();
        let ghost env = env_view(values@);
        let ghost els = document@.elements;
        let expressions = &document.elements;
        let mut configs: Vec<(String, ValueType)> = Vec::new();
        assert(config_view(configs@) =~= Seq::empty());
        assert(els.take(0) =~= Seq::empty());
        let mut i: usize = 0;
        while i < expressions.len()
            invariant
                i <= expressions.len(),
                els == crate::ast::elements_view(expressions@),
                els == document@.elements,
                self.ast@ == ExpressionView::Document(document@),
                entries == registry_entries(strings_view(custom_transformers@)),
                entries == transformer_list.entries(),
                env == env_view(values@),
                names_unique(config_view(configs@)),
                resolve_elements(entries, els.take(i as int), env) == Ok::<
                    ConfigView,
                    ParseErrorView,
                >(config_view(configs@)),
            decreases expressions.len() - i,
        {
            let ghost prefix = els.take(i + 1);
            assert(prefix.drop_last() =~= els.take(i as int));
            assert(prefix.last() == element_view(expressions@[i as int]));
            match expressions[i].as_variable() {
                Some(variable) => {
                    match Parser::to_parse_variable(&transformer_list, variable, values) {
                        Ok(value) => {
                            insert_config(&mut configs, variable.name.clone(), value);
                        },
                        Err(e) => {
                            proof {
                                lemma_resolve_error_stays(entries, els, i + 1, env);
                            }
                            return Err(Some(e));
                        },
                    }
                },
                None => {},
            }
            i = i + 1;
        }
        assert(els.take(i as int) =~= els);
        Ok(configs)
    }
}

} // verus!
