use vstd::prelude::*;
use vstd::utf8::encode_utf8;
use crate::level::{LevelFilter, level_named};
use crate::value::{Value, lookup, without_key, take_key};

verus! {

/// Why a document was not accepted as a configuration.
#[derive(Debug, PartialEq, Eq)]
pub enum ParseError {
    /// A field is missing, unknown or of the wrong shape; gives the path of
    /// keys that leads to it (`["loggers", "app.db", "level"]`).
    Malformed(Vec<String>),
    /// Two appenders, or two loggers, share this name.
    DuplicateName(String),
    /// A logger or the root refers to this appender, which is not defined.
    UnknownAppender(String),
}

/// The content of a `ParseError`.
pub enum Fault {
    Malformed(Seq<Seq<char>>),
    DuplicateName(Seq<char>),
    UnknownAppender(Seq<char>),
}

impl View for ParseError {
    type V = Fault;

    open spec fn view(&self) -> Fault {
        match self {
            ParseError::Malformed(p) => Fault::Malformed(names_view(p@)),
            ParseError::DuplicateName(s) => Fault::DuplicateName(s@),
            ParseError::UnknownAppender(s) => Fault::UnknownAppender(s@),
        }
    }
}

/// The root logger: the terminal ancestor of every logger name.
#[derive(Debug, PartialEq, Eq)]
pub struct Root {
    pub level: LevelFilter,
    pub appenders: Vec<String>,
}

/// A named logger's own settings.
#[derive(Debug, PartialEq, Eq)]
pub struct Logger {
    pub level: LevelFilter,
    pub appenders: Vec<String>,
    /// Whether ancestors' appenders are inherited; absent means yes.
    pub additive: Option<bool>,
}

/// An appender's kind and the rest of its settings, which the component that
/// kind names interprets.
#[derive(Debug, PartialEq, Eq)]
pub struct Appender {
    pub kind: String,
    pub config: Vec<(String, Value)>,
}

/// A whole configuration: refresh interval in seconds, root logger, and the
/// named appenders and loggers in document order.
#[derive(Debug, PartialEq, Eq)]
pub struct Config {
    pub refresh_rate: Option<u64>,
    pub root: Root,
    pub appenders: Vec<(String, Appender)>,
    pub loggers: Vec<(String, Logger)>,
}

/// What a `Root` holds, with names as character sequences.
pub struct RootModel {
    pub level: LevelFilter,
    pub appenders: Seq<Seq<char>>,
}

/// What a `Logger` holds.
pub struct LoggerModel {
    pub level: LevelFilter,
    pub appenders: Seq<Seq<char>>,
    pub additive: Option<bool>,
}

/// What an `Appender` holds.
pub struct AppenderModel {
    pub kind: Seq<char>,
    pub config: Seq<(String, Value)>,
}

/// What a `Config` holds: named appenders and loggers in document order.
pub struct ConfigModel {
    pub refresh_rate: Option<u64>,
    pub root: RootModel,
    pub appenders: Seq<(Seq<char>, AppenderModel)>,
    pub loggers: Seq<(Seq<char>, LoggerModel)>,
}

/// The names of a list of strings.
pub open spec fn names_view(ns: Seq<String>) -> Seq<Seq<char>> {
    ns.map_values(|s: String| s@)
}

/// The named appenders of a configuration.
pub open spec fn appenders_view(s: Seq<(String, Appender)>) -> Seq<(Seq<char>, AppenderModel)> {
    s.map_values(|e: (String, Appender)| (e.0@, e.1@))
}

/// The named loggers of a configuration.
pub open spec fn loggers_view(s: Seq<(String, Logger)>) -> Seq<(Seq<char>, LoggerModel)> {
    s.map_values(|e: (String, Logger)| (e.0@, e.1@))
}

impl View for Root {
    type V = RootModel;

    open spec fn view(&self) -> RootModel {
        RootModel { level: self.level, appenders: names_view(self.appenders@) }
    }
}

impl View for Logger {
    type V = LoggerModel;

    open spec fn view(&self) -> LoggerModel {
        LoggerModel {
            level: self.level,
            appenders: names_view(self.appenders@),
            additive: self.additive,
        }
    }
}

impl View for Appender {
    type V = AppenderModel;

    open spec fn view(&self) -> AppenderModel {
        AppenderModel { kind: self.kind@, config: self.config@ }
    }
}

impl View for Config {
    type V = ConfigModel;

    open spec fn view(&self) -> ConfigModel {
        ConfigModel {
            refresh_rate: self.refresh_rate,
            root: self.root@,
            appenders: appenders_view(self.appenders@),
            loggers: loggers_view(self.loggers@),
        }
    }
}

/// The threshold named by a string value.
pub open spec fn level_of(v: Option<Value>) -> Option<LevelFilter> {
    match v {
        Some(Value::Str(s)) => level_named(encode_utf8(s@)),
        _ => None,
    }
}

/// The text of a string value.
pub open spec fn text_of(x: Value) -> Seq<char> {
    match x {
        Value::Str(s) => s@,
        _ => Seq::empty(),
    }
}

/// A list of names; an absent list is empty.
pub open spec fn name_list(v: Option<Value>) -> Option<Seq<Seq<char>>> {
    match v {
        None => Some(Seq::empty()),
        Some(Value::List(xs)) => if forall|i: int| 0 <= i < xs@.len() ==> xs@[i] is Str {
            Some(xs@.map_values(|x: Value| text_of(x)))
        } else {
            None
        },
        _ => None,
    }
}

/// An optional flag.
pub open spec fn flag_of(v: Option<Value>) -> Option<Option<bool>> {
    match v {
        None => Some(None),
        Some(Value::Bool(b)) => Some(Some(b)),
        _ => None,
    }
}

/// The path of one field.
pub open spec fn field(k: Seq<char>) -> Seq<Seq<char>> {
    seq![k]
}

/// A failure's path, under key `k`.
pub open spec fn under<T>(k: Seq<char>, r: Result<T, Seq<Seq<char>>>) -> Result<T, Seq<Seq<char>>> {
    match r {
        Ok(x) => Ok(x),
        Err(f) => Err(field(k) + f),
    }
}

/// Reads the root logger's table. An error gives the path of the offending
/// field; the empty path means the value itself is not a table.
pub open spec fn parse_root(v: Value) -> Result<RootModel, Seq<Seq<char>>> {
    match v {
        Value::Table(es) => {
            let e1 = without_key(es@, "level"@);
            let rest = without_key(e1, "appenders"@);
            if rest.len() > 0 {
                Err(field(rest[0].0@))
            } else {
                match level_of(lookup(es@, "level"@)) {
                    None => Err(field("level"@)),
                    Some(level) => match name_list(lookup(e1, "appenders"@)) {
                        None => Err(field("appenders"@)),
                        Some(appenders) => Ok(RootModel { level, appenders }),
                    },
                }
            }
        },
        _ => Err(Seq::empty()),
    }
}

/// Reads a logger's table.
pub open spec fn parse_logger(v: Value) -> Result<LoggerModel, Seq<Seq<char>>> {
    match v {
        Value::Table(es) => {
            let e1 = without_key(es@, "level"@);
            let e2 = without_key(e1, "appenders"@);
            let rest = without_key(e2, "additive"@);
            if rest.len() > 0 {
                Err(field(rest[0].0@))
            } else {
                match level_of(lookup(es@, "level"@)) {
                    None => Err(field("level"@)),
                    Some(level) => match name_list(lookup(e1, "appenders"@)) {
                        None => Err(field("appenders"@)),
                        Some(appenders) => match flag_of(lookup(e2, "additive"@)) {
                            None => Err(field("additive"@)),
                            Some(additive) => Ok(LoggerModel { level, appenders, additive }),
                        },
                    },
                }
            }
        },
        _ => Err(Seq::empty()),
    }
}

/// Reads an appender's table: its `kind`, and the other entries as its settings.
pub open spec fn parse_appender(v: Value) -> Result<AppenderModel, Seq<Seq<char>>> {
    match v {
        Value::Table(es) => match lookup(es@, "kind"@) {
            Some(Value::Str(k)) => Ok(AppenderModel { kind: k@, config: without_key(es@, "kind"@) }),
            _ => Err(field("kind"@)),
        },
        _ => Err(Seq::empty()),
    }
}

/// Reads each appender entry in order; the first failure wins, under the
/// appender's name.
pub open spec fn parse_appenders(es: Seq<(String, Value)>) -> Result<Seq<(Seq<char>, AppenderModel)>, Seq<Seq<char>>>
    decreases es.len(),
{
    if es.len() == 0 {
        Ok(Seq::empty())
    } else {
        match parse_appenders(es.drop_last()) {
            Err(f) => Err(f),
            Ok(ms) => match under(es.last().0@, parse_appender(es.last().1)) {
                Err(f) => Err(f),
                Ok(m) => Ok(ms.push((es.last().0@, m))),
            },
        }
    }
}

/// Reads each logger entry in order; the first failure wins, under the
/// logger's name.
pub open spec fn parse_loggers(es: Seq<(String, Value)>) -> Result<Seq<(Seq<char>, LoggerModel)>, Seq<Seq<char>>>
    decreases es.len(),
{
    if es.len() == 0 {
        Ok(Seq::empty())
    } else {
        match parse_loggers(es.drop_last()) {
            Err(f) => Err(f),
            Ok(ms) => match under(es.last().0@, parse_logger(es.last().1)) {
                Err(f) => Err(f),
                Ok(m) => Ok(ms.push((es.last().0@, m))),
            },
        }
    }
}

/// Reads the structure of a whole document: `root`, `appenders` and
/// `loggers` are required, `refresh_rate` optional, no other key accepted.
/// An error gives the path of the offending field; the empty path means the
/// document itself is not a table.
pub open spec fn parse_config(v: Value) -> Result<ConfigModel, Seq<Seq<char>>> {
    match v {
        Value::Table(es) => {
            let e1 = without_key(es@, "refresh_rate"@);
            let e2 = without_key(e1, "root"@);
            let e3 = without_key(e2, "appenders"@);
            let rest = without_key(e3, "loggers"@);
            if rest.len() > 0 {
                Err(field(rest[0].0@))
            } else {
                let refresh = match lookup(es@, "refresh_rate"@) {
                    None => Some(None),
                    Some(Value::U64(n)) => Some(Some(n)),
                    _ => None,
                };
                match refresh {
                    None => Err(field("refresh_rate"@)),
                    Some(refresh_rate) => match lookup(e1, "root"@) {
                        None => Err(field("root"@)),
                        Some(r) => match under("root"@, parse_root(r)) {
                            Err(f) => Err(f),
                            Ok(root) => {
                                let apps = match lookup(e2, "appenders"@) {
                                    Some(Value::Table(xs)) => under("appenders"@, parse_appenders(xs@)),
                                    _ => Err(field("appenders"@)),
                                };
                                match apps {
                                    Err(f) => Err(f),
                                    Ok(appenders) => {
                                        let logs = match lookup(e3, "loggers"@) {
                                            Some(Value::Table(xs)) => under("loggers"@, parse_loggers(xs@)),
                                            _ => Err(field("loggers"@)),
                                        };
                                        match logs {
                                            Err(f) => Err(f),
                                            Ok(loggers) => Ok(
                                                ConfigModel { refresh_rate, root, appenders, loggers },
                                            ),
                                        }
                                    },
                                }
                            },
                        },
                    },
                }
            }
        },
        _ => Err(Seq::empty()),
    }
}

/// A parse result with its failure read as a malformed field.
pub open spec fn as_fault<T>(r: Result<T, Seq<Seq<char>>>) -> Result<T, Fault> {
    match r {
        Ok(x) => Ok(x),
        Err(f) => Err(Fault::Malformed(f)),
    }
}

/// The first name in `ns` that also occurs earlier in `ns`.
pub open spec fn first_duplicate(ns: Seq<Seq<char>>) -> Option<Seq<char>>
    decreases ns.len(),
{
    if ns.len() == 0 {
        None
    } else {
        match first_duplicate(ns.drop_last()) {
            Some(d) => Some(d),
            None => if ns.drop_last().contains(ns.last()) {
                Some(ns.last())
            } else {
                None
            },
        }
    }
}

/// The first name in `refs` that is not among `defined`.
pub open spec fn first_missing(refs: Seq<Seq<char>>, defined: Seq<Seq<char>>) -> Option<Seq<char>>
    decreases refs.len(),
{
    if refs.len() == 0 {
        None
    } else {
        match first_missing(refs.drop_last(), defined) {
            Some(m) => Some(m),
            None => if defined.contains(refs.last()) {
                None
            } else {
                Some(refs.last())
            },
        }
    }
}

/// The first appender reference among `ls`, in order, that is not among `defined`.
pub open spec fn first_missing_in(ls: Seq<(Seq<char>, LoggerModel)>, defined: Seq<Seq<char>>) -> Option<Seq<char>>
    decreases ls.len(),
{
    if ls.len() == 0 {
        None
    } else {
        match first_missing_in(ls.drop_last(), defined) {
            Some(m) => Some(m),
            None => first_missing(ls.last().1.appenders, defined),
        }
    }
}

/// The names of a configuration's appenders, in order.
pub open spec fn appender_names(c: ConfigModel) -> Seq<Seq<char>> {
    c.appenders.map_values(|e: (Seq<char>, AppenderModel)| e.0)
}

/// The names of a configuration's loggers, in order.
pub open spec fn logger_names(c: ConfigModel) -> Seq<Seq<char>> {
    c.loggers.map_values(|e: (Seq<char>, LoggerModel)| e.0)
}

/// What is wrong with a configuration, checked in this order: duplicate
/// appender names, duplicate logger names, references to undefined appenders
/// (the root's first, then each logger's in order).
pub open spec fn config_fault(c: ConfigModel) -> Option<Fault> {
    match first_duplicate(appender_names(c)) {
        Some(d) => Some(Fault::DuplicateName(d)),
        None => match first_duplicate(logger_names(c)) {
            Some(d) => Some(Fault::DuplicateName(d)),
            None => match first_missing(c.root.appenders, appender_names(c)) {
                Some(m) => Some(Fault::UnknownAppender(m)),
                None => match first_missing_in(c.loggers, appender_names(c)) {
                    Some(m) => Some(Fault::UnknownAppender(m)),
                    None => None,
                },
            },
        },
    }
}

/// A configuration is valid when nothing is wrong with it.
pub open spec fn valid(c: ConfigModel) -> bool {
    config_fault(c) is None
}

/// The outcome of reading a document: structure first, then names and references.
pub open spec fn parsed(v: Value) -> Result<ConfigModel, Fault> {
    match parse_config(v) {
        Err(f) => Err(Fault::Malformed(f)),
        Ok(c) => match config_fault(c) {
            Some(f) => Err(f),
            None => Ok(c),
        },
    }
}

/// A failure in a prefix of the appender entries is the failure of them all.
proof fn lemma_appenders_failure_persists(es: Seq<(String, Value)>, k: int)
    requires
        0 <= k <= es.len(),
        parse_appenders(es.subrange(0, k)) is Err,
    ensures
        parse_appenders(es) == parse_appenders(es.subrange(0, k)),
    decreases es.len() - k,
{
    if k < es.len() {
        assert(es.subrange(0, k + 1).drop_last() =~= es.subrange(0, k));
        lemma_appenders_failure_persists(es, k + 1);
    } else {
        assert(es.subrange(0, k) =~= es);
    }
}

/// A failure in a prefix of the logger entries is the failure of them all.
proof fn lemma_loggers_failure_persists(es: Seq<(String, Value)>, k: int)
    requires
        0 <= k <= es.len(),
        parse_loggers(es.subrange(0, k)) is Err,
    ensures
        parse_loggers(es) == parse_loggers(es.subrange(0, k)),
    decreases es.len() - k,
{
    if k < es.len() {
        assert(es.subrange(0, k + 1).drop_last() =~= es.subrange(0, k));
        lemma_loggers_failure_persists(es, k + 1);
    } else {
        assert(es.subrange(0, k) =~= es);
    }
}

fn parse_level(v: Option<Value>) -> (r: Option<LevelFilter>)
    ensures
        r == level_of(v),
{
    match v {
        Some(Value::Str(s)) => LevelFilter::from_name(s.as_str()),
        _ => None,
    }
}

fn parse_names(v: Option<Value>) -> (r: Option<Vec<String>>)
    ensures
        r is Some ==> name_list(v) == Some(names_view(r->Some_0@)),
        r is None ==> name_list(v) is None,
{
    match v {
        None => {
            let out: Vec<String> = Vec::new();
            proof {
                assert(names_view(out@) =~= Seq::<Seq<char>>::empty());
            }
            Some(out)
        },
        Some(Value::List(xs)) => {
            let mut out: Vec<String> = Vec::new();
            let mut i: usize = 0;
            while i < xs.len()
                invariant
                    v == Some(Value::List(xs)),
                    0 <= i <= xs@.len(),
                    out@.len() == i,
                    forall|j: int| 0 <= j < i ==> #[trigger] xs@[j] is Str && out@[j]@ == text_of(xs@[j]),
                decreases xs@.len() - i,
            {
                match &xs[i] {
                    Value::Str(s) => out.push(s.clone()),
                    _ => {
                        proof {
                            assert(!(xs@[i as int] is Str));
                            assert(!(forall|j: int| 0 <= j < xs@.len() ==> #[trigger] xs@[j] is Str));
                        }
                        return None;
                    },
                }
                i = i + 1;
            }
            proof {
                assert(names_view(out@) =~= xs@.map_values(|x: Value| text_of(x)));
            }
            Some(out)
        },
        _ => None,
    }
}

fn parse_flag(v: Option<Value>) -> (r: Option<Option<bool>>)
    ensures
        r == flag_of(v),
{
    match v {
        None => Some(None),
        Some(Value::Bool(b)) => Some(Some(b)),
        _ => None,
    }
}

/// The path of the one field `k`.
fn field_path(k: String) -> (r: Vec<String>)
    ensures
        names_view(r@) == field(k@),
{
    let mut r: Vec<String> = Vec::new();
    r.push(k);
    proof {
        assert(names_view(r@) =~= field(k@));
    }
    r
}

/// `rest` placed under key `k`.
fn under_path(k: String, rest: Vec<String>) -> (r: Vec<String>)
    ensures
        names_view(r@) == field(k@) + names_view(rest@),
{
    let mut r: Vec<String> = Vec::new();
    r.push(k);
    let mut rest = rest;
    let ghost tail = rest@;
    r.append(&mut rest);
    proof {
        assert(names_view(r@) =~= field(k@) + names_view(tail));
    }
    r
}

fn root_from(v: Value) -> (r: Result<Root, Vec<String>>)
    ensures
        match r {
            Ok(x) => parse_root(v) == Ok::<RootModel, Seq<Seq<char>>>(x@),
            Err(f) => parse_root(v) == Err::<RootModel, Seq<Seq<char>>>(names_view(f@)),
        },
{
    match v {
        Value::Table(es) => {
            let (level, e1) = take_key(es, &"level".to_owned());
            let (names, rest) = take_key(e1, &"appenders".to_owned());
            if rest.len() > 0 {
                return Err(field_path(rest[0].0.clone()));
            }
            let level = match parse_level(level) {
                Some(l) => l,
                None => return Err(field_path("level".to_owned())),
            };
            let appenders = match parse_names(names) {
                Some(ns) => ns,
                None => return Err(field_path("appenders".to_owned())),
            };
            Ok(Root { level, appenders })
        },
        _ => {
            let f: Vec<String> = Vec::new();
            proof {
                assert(names_view(f@) =~= Seq::<Seq<char>>::empty());
            }
            Err(f)
        },
    }
}

fn logger_from(v: Value) -> (r: Result<Logger, Vec<String>>)
    ensures
        match r {
            Ok(x) => parse_logger(v) == Ok::<LoggerModel, Seq<Seq<char>>>(x@),
            Err(f) => parse_logger(v) == Err::<LoggerModel, Seq<Seq<char>>>(names_view(f@)),
        },
{
    match v {
        Value::Table(es) => {
            let (level, e1) = take_key(es, &"level".to_owned());
            let (names, e2) = take_key(e1, &"appenders".to_owned());
            let (flag, rest) = take_key(e2, &"additive".to_owned());
            if rest.len() > 0 {
                return Err(field_path(rest[0].0.clone()));
            }
            let level = match parse_level(level) {
                Some(l) => l,
                None => return Err(field_path("level".to_owned())),
            };
            let appenders = match parse_names(names) {
                Some(ns) => ns,
                None => return Err(field_path("appenders".to_owned())),
            };
            let additive = match parse_flag(flag) {
                Some(a) => a,
                None => return Err(field_path("additive".to_owned())),
            };
            Ok(Logger { level, appenders, additive })
        },
        _ => {
            let f: Vec<String> = Vec::new();
            proof {
                assert(names_view(f@) =~= Seq::<Seq<char>>::empty());
            }
            Err(f)
        },
    }
}

fn appender_from(v: Value) -> (r: Result<Appender, Vec<String>>)
    ensures
        match r {
            Ok(x) => parse_appender(v) == Ok::<AppenderModel, Seq<Seq<char>>>(x@),
            Err(f) => parse_appender(v) == Err::<AppenderModel, Seq<Seq<char>>>(names_view(f@)),
        },
{
    match v {
        Value::Table(es) => {
            let (kind, config) = take_key(es, &"kind".to_owned());
            match kind {
                Some(Value::Str(k)) => Ok(Appender { kind: k, config }),
                _ => Err(field_path("kind".to_owned())),
            }
        },
        _ => {
            let f: Vec<String> = Vec::new();
            proof {
                assert(names_view(f@) =~= Seq::<Seq<char>>::empty());
            }
            Err(f)
        },
    }
}

fn appenders_from(es: Vec<(String, Value)>) -> (r: Result<Vec<(String, Appender)>, Vec<String>>)
    ensures
        match r {
            Ok(xs) => parse_appenders(es@) == Ok::<Seq<(Seq<char>, AppenderModel)>, Seq<Seq<char>>>(appenders_view(xs@)),
            Err(f) => parse_appenders(es@) == Err::<Seq<(Seq<char>, AppenderModel)>, Seq<Seq<char>>>(names_view(f@)),
        },
{
    let n: usize = es.len();
    let ghost orig = es@;
    let mut pending = es;
    let mut out: Vec<(String, Appender)> = Vec::new();
    let mut i: usize = 0;
    proof {
        assert(orig.subrange(0, 0).len() == 0);
        assert(appenders_view(out@) =~= Seq::<(Seq<char>, AppenderModel)>::empty());
    }
    while pending.len() > 0
        invariant
            i + pending@.len() == n,
            orig == es@,
            orig.len() == n,
            pending@ == orig.subrange(i as int, n as int),
            parse_appenders(orig.subrange(0, i as int)) == Ok::<Seq<(Seq<char>, AppenderModel)>, Seq<Seq<char>>>(appenders_view(out@)),
        decreases pending@.len(),
    {
        let ghost next = orig.subrange(0, i + 1);
        let (k, v) = pending.remove(0);
        proof {
            assert(next.drop_last() =~= orig.subrange(0, i as int));
            assert(next.last() == (k, v));
        }
        let a = match appender_from(v) {
            Ok(a) => a,
            Err(f) => {
                let p = under_path(k, f);
                proof {
                    lemma_appenders_failure_persists(orig, i + 1);
                }
                return Err(p);
            },
        };
        let ghost before = out@;
        out.push((k, a));
        proof {
            assert(appenders_view(out@) =~= appenders_view(before).push((k@, a@)));
        }
        i = i + 1;
        proof {
            assert(pending@ =~= orig.subrange(i as int, n as int));
        }
    }
    proof {
        assert(orig.subrange(0, i as int) =~= orig);
    }
    Ok(out)
}

fn loggers_from(es: Vec<(String, Value)>) -> (r: Result<Vec<(String, Logger)>, Vec<String>>)
    ensures
        match r {
            Ok(xs) => parse_loggers(es@) == Ok::<Seq<(Seq<char>, LoggerModel)>, Seq<Seq<char>>>(loggers_view(xs@)),
            Err(f) => parse_loggers(es@) == Err::<Seq<(Seq<char>, LoggerModel)>, Seq<Seq<char>>>(names_view(f@)),
        },
{
    let n: usize = es.len();
    let ghost orig = es@;
    let mut pending = es;
    let mut out: Vec<(String, Logger)> = Vec::new();
    let mut i: usize = 0;
    proof {
        assert(orig.subrange(0, 0).len() == 0);
        assert(loggers_view(out@) =~= Seq::<(Seq<char>, LoggerModel)>::empty());
    }
    while pending.len() > 0
        invariant
            i + pending@.len() == n,
            orig == es@,
            orig.len() == n,
            pending@ == orig.subrange(i as int, n as int),
            parse_loggers(orig.subrange(0, i as int)) == Ok::<Seq<(Seq<char>, LoggerModel)>, Seq<Seq<char>>>(loggers_view(out@)),
        decreases pending@.len(),
    {
        let ghost next = orig.subrange(0, i + 1);
        let (k, v) = pending.remove(0);
        proof {
            assert(next.drop_last() =~= orig.subrange(0, i as int));
            assert(next.last() == (k, v));
        }
        let l = match logger_from(v) {
            Ok(l) => l,
            Err(f) => {
                let p = under_path(k, f);
                proof {
                    lemma_loggers_failure_persists(orig, i + 1);
                }
                return Err(p);
            },
        };
        let ghost before = out@;
        out.push((k, l));
        proof {
            assert(loggers_view(out@) =~= loggers_view(before).push((k@, l@)));
        }
        i = i + 1;
        proof {
            assert(pending@ =~= orig.subrange(i as int, n as int));
        }
    }
    proof {
        assert(orig.subrange(0, i as int) =~= orig);
    }
    Ok(out)
}

fn config_from(v: Value) -> (r: Result<Config, Vec<String>>)
    ensures
        match r {
            Ok(x) => parse_config(v) == Ok::<ConfigModel, Seq<Seq<char>>>(x@),
            Err(f) => parse_config(v) == Err::<ConfigModel, Seq<Seq<char>>>(names_view(f@)),
        },
{
    match v {
        Value::Table(es) => {
            let (rate, e1) = take_key(es, &"refresh_rate".to_owned());
            let (root, e2) = take_key(e1, &"root".to_owned());
            let (apps, e3) = take_key(e2, &"appenders".to_owned());
            let (logs, rest) = take_key(e3, &"loggers".to_owned());
            if rest.len() > 0 {
                return Err(field_path(rest[0].0.clone()));
            }
            let refresh_rate = match rate {
                None => None,
                Some(Value::U64(n)) => Some(n),
                _ => return Err(field_path("refresh_rate".to_owned())),
            };
            let root = match root {
                None => return Err(field_path("root".to_owned())),
                Some(r) => match root_from(r) {
                    Ok(x) => x,
                    Err(f) => return Err(under_path("root".to_owned(), f)),
                },
            };
            let appenders = match apps {
                Some(Value::Table(xs)) => match appenders_from(xs) {
                    Ok(x) => x,
                    Err(f) => return Err(under_path("appenders".to_owned(), f)),
                },
                _ => return Err(field_path("appenders".to_owned())),
            };
            let loggers = match logs {
                Some(Value::Table(xs)) => match loggers_from(xs) {
                    Ok(x) => x,
                    Err(f) => return Err(under_path("loggers".to_owned(), f)),
                },
                _ => return Err(field_path("loggers".to_owned())),
            };
            Ok(Config { refresh_rate, root, appenders, loggers })
        },
        _ => {
            let f: Vec<String> = Vec::new();
            proof {
                assert(names_view(f@) =~= Seq::<Seq<char>>::empty());
            }
            Err(f)
        },
    }
}

pub(crate) fn contains_name(ns: &Vec<String>, end: usize, n: &String) -> (r: bool)
    requires
        end <= ns@.len(),
    ensures
        r == names_view(ns@).subrange(0, end as int).contains(n@),
{
    let mut i: usize = 0;
    while i < end
        invariant
            end <= ns@.len(),
            0 <= i <= end,
            forall|j: int| 0 <= j < i ==> ns@[j]@ != n@,
        decreases end - i,
    {
        if ns[i] == *n {
            proof {
                assert(names_view(ns@).subrange(0, end as int)[i as int] == n@);
            }
            return true;
        }
        i = i + 1;
    }
    proof {
        if names_view(ns@).subrange(0, end as int).contains(n@) {
            let j = choose|j: int| 0 <= j < end && names_view(ns@).subrange(0, end as int)[j] == n@;
            assert(ns@[j]@ == n@);
        }
    }
    false
}

fn find_duplicate(ns: &Vec<String>) -> (r: Option<String>)
    ensures
        match r {
            Some(d) => first_duplicate(names_view(ns@)) == Some(d@),
            None => first_duplicate(names_view(ns@)) is None,
        },
{
    let ghost all = names_view(ns@);
    let mut i: usize = 0;
    while i < ns.len()
        invariant
            all == names_view(ns@),
            0 <= i <= ns@.len(),
            first_duplicate(all.subrange(0, i as int)) is None,
        decreases ns@.len() - i,
    {
        proof {
            assert(all.subrange(0, i + 1).drop_last() =~= all.subrange(0, i as int));
        }
        if contains_name(ns, i, &ns[i]) {
            proof {
                lemma_duplicate_persists(all, i + 1);
            }
            return Some(ns[i].clone());
        }
        i = i + 1;
    }
    proof {
        assert(all.subrange(0, i as int) =~= all);
    }
    None
}

fn find_missing(refs: &Vec<String>, defined: &Vec<String>) -> (r: Option<String>)
    ensures
        match r {
            Some(m) => first_missing(names_view(refs@), names_view(defined@)) == Some(m@),
            None => first_missing(names_view(refs@), names_view(defined@)) is None,
        },
{
    let ghost all = names_view(refs@);
    let ghost defs = names_view(defined@);
    let mut i: usize = 0;
    while i < refs.len()
        invariant
            all == names_view(refs@),
            defs == names_view(defined@),
            0 <= i <= refs@.len(),
            first_missing(all.subrange(0, i as int), defs) is None,
        decreases refs@.len() - i,
    {
        proof {
            assert(all.subrange(0, i + 1).drop_last() =~= all.subrange(0, i as int));
            assert(defs.subrange(0, defined@.len() as int) =~= defs);
        }
        if !contains_name(defined, defined.len(), &refs[i]) {
            proof {
                lemma_missing_persists(all, defs, i + 1);
            }
            return Some(refs[i].clone());
        }
        i = i + 1;
    }
    proof {
        assert(all.subrange(0, i as int) =~= all);
    }
    None
}

proof fn lemma_duplicate_persists(ns: Seq<Seq<char>>, k: int)
    requires
        0 <= k <= ns.len(),
        first_duplicate(ns.subrange(0, k)) is Some,
    ensures
        first_duplicate(ns) == first_duplicate(ns.subrange(0, k)),
    decreases ns.len() - k,
{
    if k < ns.len() {
        assert(ns.subrange(0, k + 1).drop_last() =~= ns.subrange(0, k));
        lemma_duplicate_persists(ns, k + 1);
    } else {
        assert(ns.subrange(0, k) =~= ns);
    }
}

proof fn lemma_missing_persists(ns: Seq<Seq<char>>, defined: Seq<Seq<char>>, k: int)
    requires
        0 <= k <= ns.len(),
        first_missing(ns.subrange(0, k), defined) is Some,
    ensures
        first_missing(ns, defined) == first_missing(ns.subrange(0, k), defined),
    decreases ns.len() - k,
{
    if k < ns.len() {
        assert(ns.subrange(0, k + 1).drop_last() =~= ns.subrange(0, k));
        lemma_missing_persists(ns, defined, k + 1);
    } else {
        assert(ns.subrange(0, k) =~= ns);
    }
}

proof fn lemma_missing_in_persists(ls: Seq<(Seq<char>, LoggerModel)>, defined: Seq<Seq<char>>, k: int)
    requires
        0 <= k <= ls.len(),
        first_missing_in(ls.subrange(0, k), defined) is Some,
    ensures
        first_missing_in(ls, defined) == first_missing_in(ls.subrange(0, k), defined),
    decreases ls.len() - k,
{
    if k < ls.len() {
        assert(ls.subrange(0, k + 1).drop_last() =~= ls.subrange(0, k));
        lemma_missing_in_persists(ls, defined, k + 1);
    } else {
        assert(ls.subrange(0, k) =~= ls);
    }
}

impl Root {
    /// Reads a root logger's table: `level` is required, `appenders` optional.
    pub fn deserialize(v: Value) -> (r: Result<Root, ParseError>)
        ensures
            match r {
                Ok(x) => as_fault(parse_root(v)) == Ok::<RootModel, Fault>(x@),
                Err(e) => as_fault(parse_root(v)) == Err::<RootModel, Fault>(e@),
            },
    {
        match root_from(v) {
            Ok(x) => Ok(x),
            Err(f) => Err(ParseError::Malformed(f)),
        }
    }
}

impl Logger {
    /// Reads a logger's table: `level` is required, `appenders` and
    /// `additive` optional.
    pub fn deserialize(v: Value) -> (r: Result<Logger, ParseError>)
        ensures
            match r {
                Ok(x) => as_fault(parse_logger(v)) == Ok::<LoggerModel, Fault>(x@),
                Err(e) => as_fault(parse_logger(v)) == Err::<LoggerModel, Fault>(e@),
            },
    {
        match logger_from(v) {
            Ok(x) => Ok(x),
            Err(f) => Err(ParseError::Malformed(f)),
        }
    }

    /// Whether ancestors' appenders are inherited.
    pub fn is_additive(&self) -> (r: bool)
        ensures
            r == (self.additive != Some(false)),
    {
        match self.additive {
            Some(b) => b,
            None => true,
        }
    }
}

impl Config {
    /// Reads and checks a document, stopping at the first failure: its
    /// structure (`root`, `appenders` and `loggers` required, `refresh_rate`
    /// optional, no other key), then that no two appenders or loggers share
    /// a name, then that every referenced appender is defined.
    pub fn deserialize(v: Value) -> (r: Result<Config, ParseError>)
        ensures
            match r {
                Ok(x) => parsed(v) == Ok::<ConfigModel, Fault>(x@),
                Err(e) => parsed(v) == Err::<ConfigModel, Fault>(e@),
            },
    {
        let c = match config_from(v) {
            Ok(x) => x,
            Err(f) => return Err(ParseError::Malformed(f)),
        };
        c.validate()?;
        Ok(c)
    }

    /// Checks names and references: no two appenders or loggers share a
    /// name, and every referenced appender is defined.
    pub fn validate(&self) -> (r: Result<(), ParseError>)
        ensures
            match r {
                Ok(_) => config_fault(self@) is None,
                Err(e) => config_fault(self@) == Some(e@),
            },
    {
        let mut apps: Vec<String> = Vec::new();
        let mut i: usize = 0;
        while i < self.appenders.len()
            invariant
                0 <= i <= self.appenders@.len(),
                names_view(apps@) =~= appender_names(self@).subrange(0, i as int),
            decreases self.appenders@.len() - i,
        {
            let ghost before = apps@;
            apps.push(self.appenders[i].0.clone());
            proof {
                assert(names_view(apps@) =~= names_view(before).push(self.appenders@[i as int].0@));
                assert(appender_names(self@)[i as int] == self.appenders@[i as int].0@);
                assert(names_view(apps@) =~= appender_names(self@).subrange(0, i + 1));
            }
            i = i + 1;
        }
        let mut logs: Vec<String> = Vec::new();
        let mut i: usize = 0;
        while i < self.loggers.len()
            invariant
                0 <= i <= self.loggers@.len(),
                names_view(logs@) =~= logger_names(self@).subrange(0, i as int),
            decreases self.loggers@.len() - i,
        {
            let ghost before = logs@;
            logs.push(self.loggers[i].0.clone());
            proof {
                assert(names_view(logs@) =~= names_view(before).push(self.loggers@[i as int].0@));
                assert(logger_names(self@)[i as int] == self.loggers@[i as int].0@);
                assert(names_view(logs@) =~= logger_names(self@).subrange(0, i + 1));
            }
            i = i + 1;
        }
        proof {
            assert(names_view(apps@) =~= appender_names(self@));
            assert(names_view(logs@) =~= logger_names(self@));
        }
        if let Some(d) = find_duplicate(&apps) {
            return Err(ParseError::DuplicateName(d));
        }
        if let Some(d) = find_duplicate(&logs) {
            return Err(ParseError::DuplicateName(d));
        }
        if let Some(m) = find_missing(&self.root.appenders, &apps) {
            return Err(ParseError::UnknownAppender(m));
        }
        let ghost ls = self@.loggers;
        let mut i: usize = 0;
        while i < self.loggers.len()
            invariant
                ls == self@.loggers,
                names_view(apps@) == appender_names(self@),
                first_duplicate(appender_names(self@)) is None,
                first_duplicate(logger_names(self@)) is None,
                first_missing(self@.root.appenders, appender_names(self@)) is None,
                0 <= i <= self.loggers@.len(),
                first_missing_in(ls.subrange(0, i as int), names_view(apps@)) is None,
            decreases self.loggers@.len() - i,
        {
            proof {
                assert(ls.subrange(0, i + 1).drop_last() =~= ls.subrange(0, i as int));
            }
            if let Some(m) = find_missing(&self.loggers[i].1.appenders, &apps) {
                proof {
                        assert(ls[i as int] == (self.loggers@[i as int].0@, self.loggers@[i as int].1@));
                    assert(ls[i as int].1.appenders == names_view(self.loggers@[i as int].1.appenders@));
                    assert(ls.subrange(0, i + 1).last() == ls[i as int]);
                    lemma_missing_in_persists(ls, names_view(apps@), i + 1);
                }
                return Err(ParseError::UnknownAppender(m));
            }
            i = i + 1;
        }
        proof {
            assert(ls.subrange(0, i as int) =~= ls);
        }
        Ok(())
    }

    /// Reads and checks a document; the same as `deserialize`.
    pub fn parse(v: Value) -> (r: Result<Config, ParseError>)
        ensures
            match r {
                Ok(x) => parsed(v) == Ok::<ConfigModel, Fault>(x@),
                Err(e) => parsed(v) == Err::<ConfigModel, Fault>(e@),
            },
    {
        Config::deserialize(v)
    }
}

} // verus!
