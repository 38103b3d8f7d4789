use crate::ast::{Variable, VariableView};
use crate::errors::{ParseError, ParseErrorKind, ParseErrorView};
use crate::text::{chars_of, eq_ignore_ascii_case, lower_of, lowercase, matches_ignore_ascii_case};
use crate::tokenizer::is_digit;
use vstd::prelude::*;

verus! {

/// A resolved configuration value.
#[derive(Debug, Clone, PartialEq)]
pub enum ValueType {
    Null,
    Boolean(bool),
    Number(u32),
    String(String),
    Custom(String, String),
}

/// The mathematical content of a `ValueType`.
pub enum Value {
    Null,
    Boolean(bool),
    Number(u32),
    Text(Seq<char>),
    Custom(Seq<char>, Seq<char>),
}

impl View for ValueType {
    type V = Value;

    open spec fn view(&self) -> Value {
        match self {
            ValueType::Null => Value::Null,
            ValueType::Boolean(b) => Value::Boolean(*b),
            ValueType::Number(n) => Value::Number(*n),
            ValueType::String(s) => Value::Text(s@),
            ValueType::Custom(t, v) => Value::Custom(t@, v@),
        }
    }
}

pub open spec fn value_opt_view(r: Option<ValueType>) -> Option<Value> {
    match r {
        Some(v) => Some(v@),
        None => None,
    }
}

// ---- Numbers ----

pub open spec fn is_not_underscore(c: char) -> bool {
    c != '_'
}

/// The text without its `_` separators.
pub open spec fn without_underscores(s: Seq<char>) -> Seq<char> {
    s.filter(|c: char| is_not_underscore(c))
}

pub open spec fn all_digits(s: Seq<char>) -> bool {
    forall|i: int| 0 <= i < s.len() ==> is_digit(s[i])
}

/// The value of a run of decimal digits.
pub open spec fn digits_value(s: Seq<char>) -> nat
    decreases s.len(),
{
    if s.len() == 0 {
        0
    } else {
        digits_value(s.drop_last()) * 10 + ((s.last() as u32) - ('0' as u32)) as nat
    }
}

/// The digits after an optional leading `+`.
pub open spec fn unsigned_digits(s: Seq<char>) -> Seq<char> {
    if s.len() > 0 && s[0] == '+' {
        s.drop_first()
    } else {
        s
    }
}

/// A decimal `u32` as `str::parse` reads it: an optional `+`, then at least one digit,
/// and a value that fits.
pub open spec fn parse_u32_spec(s: Seq<char>) -> Option<u32> {
    let d = unsigned_digits(s);
    if d.len() > 0 && all_digits(d) && digits_value(d) <= u32::MAX {
        Some(digits_value(d) as u32)
    } else {
        None
    }
}

/// The number that a text stands for once its `_` separators are removed.
pub open spec fn number_of(s: Seq<char>) -> Option<u32> {
    parse_u32_spec(without_underscores(s))
}

/// Whether a text reads as `true`: `on`, `true` or `1`, without regard to case.
pub open spec fn is_truthy(s: Seq<char>) -> bool {
    eq_ignore_ascii_case(s, "on"@) || eq_ignore_ascii_case(s, "true"@) || eq_ignore_ascii_case(
        s,
        "1"@,
    )
}

proof fn lemma_digits_value_prefix(s: Seq<char>, k: int)
    requires
        0 <= k <= s.len(),
    ensures
        digits_value(s.take(k)) <= digits_value(s),
    decreases s.len(),
{
    if k < s.len() {
        assert(s.drop_last().take(k) =~= s.take(k));
        lemma_digits_value_prefix(s.drop_last(), k);
    } else {
        assert(s.take(k) =~= s);
    }
}

fn strip_underscores(s: &Vec<char>) -> (r: Vec<char>)
    ensures
        r@ == without_underscores(s@),
{
    let mut r: Vec<char> = Vec::new();
    let mut i: usize = 0;
    while i < s.len()
        invariant
            i <= s.len(),
            r@ == s@.take(i as int).filter(|c: char| is_not_underscore(c)),
        decreases s.len() - i,
    {
        proof {
            let p = s@.take(i + 1);
            assert(p.drop_last() =~= s@.take(i as int));
            assert(p.last() == s@[i as int]);
            reveal(Seq::filter);
        }
        if s[i] != '_' {
            r.push(s[i]);
        }
        i = i + 1;
    }
    assert(s@.take(s@.len() as int) =~= s@);
    r
}

fn parse_u32(s: &Vec<char>) -> (r: Option<u32>)
    ensures
        r == parse_u32_spec(s@),
{
    let start: usize = if s.len() > 0 && s[0] == '+' {
        1
    } else {
        0
    };
    let ghost d = unsigned_digits(s@);
    assert(d =~= s@.subrange(start as int, s@.len() as int));
    if start == s.len() {
        return None;
    }
    let mut value: u64 = 0;
    let mut i: usize = start;
    while i < s.len()
        invariant
            start <= i <= s.len(),
            start < s.len(),
            d =~= s@.subrange(start as int, s@.len() as int),
            d == unsigned_digits(s@),
            all_digits(d.take(i - start)),
            value == digits_value(d.take(i - start)),
            value <= u32::MAX,
        decreases s.len() - i,
    {
        let c = s[i];
        if !('0' <= c && c <= '9') {
            assert(!is_digit(d[i - start]));
            return None;
        }
        let ghost p = d.take(i - start + 1);
        proof {
            assert(p.drop_last() =~= d.take(i - start));
            assert(p.last() == c);
        }
        value = value * 10 + ((c as u32) - ('0' as u32)) as u64;
        assert(value == digits_value(p));
        i = i + 1;
        if value > u32::MAX as u64 {
            proof {
                lemma_digits_value_prefix(d, i - start);
            }
            return None;
        }
    }
    assert(d.take(i - start) =~= d);
    Some(value as u32)
}

// ---- Transformers ----

/// A conversion from a raw text to a typed value, for one family of declared types.
pub trait Transformer {
    /// The value that `input_value` becomes, or `None` where it cannot be converted.
    spec fn transform(&self, type_input: Seq<char>, input_value: Seq<char>) -> Option<Value>;

    fn parse(&self, type_input: String, input_value: String) -> (r: Option<ValueType>)
        ensures
            value_opt_view(r) == self.transform(type_input@, input_value@),
    ;
}

/// Keeps the text as it is.
pub struct StringTransform;

/// Reads a decimal `u32`, `_` separators allowed.
pub struct NumberTransform;

/// Reads `on`, `true` or `1` as true and anything else as false.
pub struct BooleanTransform;

/// Keeps the text, tagged with the declared type's name.
pub struct CustomTransform;

impl Transformer for StringTransform {
    open spec fn transform(&self, type_input: Seq<char>, input_value: Seq<char>) -> Option<Value> {
        Some(Value::Text(input_value))
    }

    fn parse(&self, type_input: String, input_value: String) -> (r: Option<ValueType>) {
        Some(ValueType::String(input_value))
    }
}

impl Transformer for NumberTransform {
    open spec fn transform(&self, type_input: Seq<char>, input_value: Seq<char>) -> Option<Value> {
        match number_of(input_value) {
            Some(n) => Some(Value::Number(n)),
            None => None,
        }
    }

    fn parse(&self, type_input: String, input_value: String) -> (r: Option<ValueType>) {
        let digits = strip_underscores(&chars_of(input_value.as_str()));
        match parse_u32(&digits) {
            Some(n) => Some(ValueType::Number(n)),
            None => None,
        }
    }
}

impl Transformer for BooleanTransform {
    open spec fn transform(&self, type_input: Seq<char>, input_value: Seq<char>) -> Option<Value> {
        Some(Value::Boolean(is_truthy(input_value)))
    }

    fn parse(&self, type_input: String, input_value: String) -> (r: Option<ValueType>) {
        let c = chars_of(input_value.as_str());
        let b = matches_ignore_ascii_case(&c, "on") || matches_ignore_ascii_case(&c, "true")
            || matches_ignore_ascii_case(&c, "1");
        Some(ValueType::Boolean(b))
    }
}

impl Transformer for CustomTransform {
    open spec fn transform(&self, type_input: Seq<char>, input_value: Seq<char>) -> Option<Value> {
        Some(Value::Custom(type_input, input_value))
    }

    fn parse(&self, type_input: String, input_value: String) -> (r: Option<ValueType>) {
        Some(ValueType::Custom(type_input, input_value))
    }
}

/// Which transformer a registered type name selects.
#[derive(Debug, Clone, Copy, PartialEq, Eq, Structural)]
pub enum TransformerKind {
    Str,
    Number,
    Boolean,
    Custom,
}

/// What the transformer of kind `kind` makes of `raw` for the declared type `type_input`.
pub open spec fn transform_by(kind: TransformerKind, type_input: Seq<char>, raw: Seq<char>) -> Option<
    Value,
> {
    match kind {
        TransformerKind::Str => StringTransform.transform(type_input, raw),
        TransformerKind::Number => NumberTransform.transform(type_input, raw),
        TransformerKind::Boolean => BooleanTransform.transform(type_input, raw),
        TransformerKind::Custom => CustomTransform.transform(type_input, raw),
    }
}

impl TransformerKind {
    pub fn apply(&self, type_input: String, raw: String) -> (r: Option<ValueType>)
        ensures
            value_opt_view(r) == transform_by(*self, type_input@, raw@),
    {
        match self {
            TransformerKind::Str => StringTransform.parse(type_input, raw),
            TransformerKind::Number => NumberTransform.parse(type_input, raw),
            TransformerKind::Boolean => BooleanTransform.parse(type_input, raw),
            TransformerKind::Custom => CustomTransform.parse(type_input, raw),
        }
    }
}

/// The transformer registered last under `key`.
pub open spec fn lookup_last(entries: Seq<(Seq<char>, TransformerKind)>, key: Seq<char>) -> Option<
    TransformerKind,
>
    decreases entries.len(),
{
    if entries.len() == 0 {
        None
    } else if entries.last().0 == key {
        Some(entries.last().1)
    } else {
        lookup_last(entries.drop_last(), key)
    }
}

/// A registry from lower-cased type names to transformers; a later entry wins.
pub struct TransformerList {
    transformers: Vec<(String, TransformerKind)>,
}

impl TransformerList {
    pub closed spec fn entries(&self) -> Seq<(Seq<char>, TransformerKind)> {
        self.transformers@.map_values(|e: (String, TransformerKind)| (e.0@, e.1))
    }

    pub fn new() -> (r: Self)
        ensures
            r.entries() == Seq::<(Seq<char>, TransformerKind)>::empty(),
    {
        let r = TransformerList { transformers: Vec::new() };
        assert(r.entries() =~= Seq::empty());
        r
    }

    pub fn insert(&mut self, key: String, transformer: TransformerKind)
        ensures
            final(self).entries() == old(self).entries().push((key@, transformer)),
    {
        let ghost k = key@;
        self.transformers.push((key, transformer));
        assert(self.entries() =~= old(self).entries().push((k, transformer)));
    }

    pub fn get(&self, transform_type: &String) -> (r: Option<TransformerKind>)
        ensures
            r == lookup_last(self.entries(), transform_type@),
    {
        let ghost e = self.entries();
        let mut p: usize = self.transformers.len();
        assert(e.take(p as int) =~= e);
        while p > 0
            invariant
                p <= self.transformers.len(),
                e == self.entries(),
                lookup_last(e, transform_type@) == lookup_last(e.take(p as int), transform_type@),
            decreases p,
        {
            let ghost q = e.take(p as int);
            assert(q.drop_last() =~= e.take(p - 1));
            assert(q.last() == (self.transformers@[p - 1].0@, self.transformers@[p - 1].1));
            if self.transformers[p - 1].0 == *transform_type {
                return Some(self.transformers[p - 1].1);
            }
            p = p - 1;
        }
        None
    }
}

// ---- Resolution ----

/// The entries that resolution registers: the built-in names, then each custom name
/// lower-cased.
pub open spec fn registry_entries(customs: Seq<Seq<char>>) -> Seq<(Seq<char>, TransformerKind)> {
    seq![
        ("unknown"@, TransformerKind::Str),
        ("str"@, TransformerKind::Str),
        ("string"@, TransformerKind::Str),
        ("number"@, TransformerKind::Number),
        ("bool"@, TransformerKind::Boolean),
        ("boolean"@, TransformerKind::Boolean),
    ] + customs.map_values(|c: Seq<char>| (lower_of(c), TransformerKind::Custom))
}

/// Environment overrides: a name, and a value that may be absent.
pub type EnvView = Seq<(Seq<char>, Option<Seq<char>>)>;

pub open spec fn env_view(env: Seq<(String, Option<String>)>) -> EnvView {
    env.map_values(
        |p: (String, Option<String>)|
            (
                p.0@,
                match p.1 {
                    Some(v) => Some(v@),
                    None => None,
                },
            ),
    )
}

/// The override for `name`: the value of the last pair with that name, if it holds one.
pub open spec fn env_lookup(env: EnvView, name: Seq<char>) -> Option<Seq<char>>
    decreases env.len(),
{
    if env.len() == 0 {
        None
    } else if env.last().0 == name {
        env.last().1
    } else {
        env_lookup(env.drop_last(), name)
    }
}

/// The declared type name, `String` where none is declared.
pub open spec fn declared_type(v: VariableView) -> Seq<char> {
    match v.variable_type {
        Some(t) => t,
        None => "String"@,
    }
}

pub open spec fn unknown_type_message(type_key: Seq<char>) -> Seq<char> {
    "Type "@ + type_key + " is not valid type"@
}

pub open spec fn missing_value_message(name: Seq<char>) -> Seq<char> {
    name + " value cannot be null"@
}

pub open spec fn coercion_message(raw: Seq<char>, declared: Seq<char>) -> Seq<char> {
    "Value "@ + raw + " cannot be converted to "@ + declared
}

/// The value of one declaration once its type is looked up: `found` is what the registry
/// holds for `key`, the lower-cased declared type.
pub open spec fn resolve_found(
    found: Option<TransformerKind>,
    key: Seq<char>,
    v: VariableView,
    env: EnvView,
) -> Result<Value, ParseErrorView> {
    let declared = declared_type(v);
    match found {
        None => Err(
            ParseErrorView {
                kind: ParseErrorKind::UnknownType,
                message: unknown_type_message(key),
                span: v.span,
            },
        ),
        Some(kind) => {
            let over = env_lookup(env, v.name);
            if v.nullable && over is None && v.default_value is None {
                Ok(Value::Null)
            } else {
                let selected = match over {
                    Some(s) => Some(s),
                    None => match v.default_value {
                        Some(d) => Some(d.value),
                        None => None,
                    },
                };
                match selected {
                    None => Err(
                        ParseErrorView {
                            kind: ParseErrorKind::MissingValue,
                            message: missing_value_message(v.name),
                            span: v.span,
                        },
                    ),
                    Some(raw) => match transform_by(kind, declared, raw) {
                        Some(val) => Ok(val),
                        None => Err(
                            ParseErrorView {
                                kind: ParseErrorKind::CoercionFailed,
                                message: coercion_message(raw, declared),
                                span: v.span,
                            },
                        ),
                    },
                }
            }
        },
    }
}

/// The value of one declaration, given the registry and the environment.
pub open spec fn resolve_variable(
    entries: Seq<(Seq<char>, TransformerKind)>,
    v: VariableView,
    env: EnvView,
) -> Result<Value, ParseErrorView> {
    let key = lower_of(declared_type(v));
    resolve_found(lookup_last(entries, key), key, v, env)
}

fn env_get(envs: &Vec<(String, Option<String>)>, name: &String) -> (r: Option<String>)
    ensures
        value_string_view(r) == env_lookup(env_view(envs@), name@),
{
    let ghost e = env_view(envs@);
    let mut p: usize = envs.len();
    assert(e.take(p as int) =~= e);
    while p > 0
        invariant
            p <= envs.len(),
            e == env_view(envs@),
            env_lookup(e, name@) == env_lookup(e.take(p as int), name@),
        decreases p,
    {
        let ghost q = e.take(p as int);
        assert(q.drop_last() =~= e.take(p - 1));
        assert(q.last() == e[p - 1]);
        if envs[p - 1].0 == *name {
            return match &envs[p - 1].1 {
                Some(v) => Some(v.clone()),
                None => None,
            };
        }
        p = p - 1;
    }
    None
}

pub open spec fn value_string_view(r: Option<String>) -> Option<Seq<char>> {
    match r {
        Some(s) => Some(s@),
        None => None,
    }
}

pub open spec fn value_result_view(r: Result<ValueType, ParseError>) -> Result<Value, ParseErrorView> {
    match r {
        Ok(v) => Ok(v@),
        Err(e) => Err(e@),
    }
}

pub struct Parser;

impl Parser {
    /// Resolves one declaration against the registry and the environment.
    pub fn to_parse_variable(
        transformer_list: &TransformerList,
        variable: &Variable,
        envs: &Vec<(String, Option<String>)>,
    ) -> (r: Result<ValueType, ParseError>)
        ensures
            value_result_view(r) == resolve_variable(
                transformer_list.entries(),
                variable@,
                env_view(envs@),
            ),
    {
        let declared = declared_type_of(variable);
        let transform_type = lowercase(declared.as_str());
        let transformer = transformer_list.get(&transform_type);
        Self::to_parse_found(transformer, &transform_type, variable, envs)
    }

    /// Resolves one declaration whose type is looked up already: `transformer` is what the
    /// registry holds for `transform_type`, the lower-cased declared type.
    pub fn to_parse_found(
        transformer: Option<TransformerKind>,
        transform_type: &String,
        variable: &Variable,
        envs: &Vec<(String, Option<String>)>,
    ) -> (r: Result<ValueType, ParseError>)
        ensures
            value_result_view(r) == resolve_found(
                transformer,
                transform_type@,
                variable@,
                env_view(envs@),
            ),
    {
        let transformer = match transformer {
            Some(k) => k,
            None => {
                let mut message = "Type ".to_owned();
                message.append(transform_type.as_str());
                message.append(" is not valid type");
                return Err(ParseError::new(ParseErrorKind::UnknownType, message, variable.span));
            },
        };
        let value_env = env_get(envs, &variable.name);
        if variable.nullable && value_env.is_none() && variable.default_value.is_none() {
            return Ok(ValueType::Null);
        }
        let value_to_transform = match value_env {
            Some(v) => v,
            None => match &variable.default_value {
                Some(d) => d.value.clone(),
                None => {
                    let mut message = variable.name.clone();
                    message.append(" value cannot be null");
                    return Err(
                        ParseError::new(ParseErrorKind::MissingValue, message, variable.span),
                    );
                },
            },
        };
        let declared = declared_type_of(variable);
        let mut message = "Value ".to_owned();
        message.append(value_to_transform.as_str());
        message.append(" cannot be converted to ");
        message.append(declared.as_str());
        match transformer.apply(declared, value_to_transform) {
            Some(v) => Ok(v),
            None => Err(ParseError::new(ParseErrorKind::CoercionFailed, message, variable.span)),
        }
    }
}

/// The declared type name, `String` where none is declared.
fn declared_type_of(variable: &Variable) -> (r: String)
    ensures
        r@ == declared_type(variable@),
{
    match &variable.variable_type {
        Some(t) => t.clone(),
        None => "String".to_owned(),
    }
}

} // verus!
