use vstd::prelude::*;
use vstd::string::StringSliceAdditionalSpecFns;
use vstd::utf8::encode_utf8;
use crate::level::{LevelFilter, level_named};
use crate::value::{Value, lookup, without_key};
use crate::config::{
    Appender, AppenderModel, Config, ConfigModel, Logger, LoggerModel, Root, RootModel,
    appenders_view, level_of, loggers_view, name_list, names_view, parse_appender, parse_appenders,
    parse_config, parse_logger, parse_loggers, parse_root, text_of, parsed, valid, Fault,
};

verus! {

/// The canonical name of a threshold.
pub open spec fn level_text(l: LevelFilter) -> Seq<char> {
    match l {
        LevelFilter::Off => "off"@,
        LevelFilter::Error => "error"@,
        LevelFilter::Warn => "warn"@,
        LevelFilter::Info => "info"@,
        LevelFilter::Debug => "debug"@,
        LevelFilter::Trace => "trace"@,
    }
}

/// `v` is a list of strings holding exactly `ns`.
pub open spec fn is_name_list(v: Value, ns: Seq<Seq<char>>) -> bool {
    match v {
        Value::List(xs) => xs@.len() == ns.len() && forall|i: int|
            0 <= i < ns.len() ==> #[trigger] xs@[i] is Str && text_of(xs@[i]) == ns[i],
        _ => false,
    }
}

/// `v` is the string naming `l`.
pub open spec fn is_level_text(v: Value, l: LevelFilter) -> bool {
    v is Str && text_of(v) == level_text(l)
}

/// The document form of a root logger: `level`, then `appenders`.
pub open spec fn is_root_doc(v: Value, r: RootModel) -> bool {
    match v {
        Value::Table(es) => es@.len() == 2 && es@[0].0@ == "level"@ && is_level_text(es@[0].1, r.level)
            && es@[1].0@ == "appenders"@ && is_name_list(es@[1].1, r.appenders),
        _ => false,
    }
}

/// The document form of a logger: `level`, `appenders`, then `additive` if set.
pub open spec fn is_logger_doc(v: Value, l: LoggerModel) -> bool {
    match v {
        Value::Table(es) => es@.len() >= 2 && es@[0].0@ == "level"@ && is_level_text(es@[0].1, l.level)
            && es@[1].0@ == "appenders"@ && is_name_list(es@[1].1, l.appenders) && match l.additive {
            None => es@.len() == 2,
            Some(b) => es@.len() == 3 && es@[2].0@ == "additive"@ && es@[2].1 == Value::Bool(b),
        },
        _ => false,
    }
}

/// The document form of an appender: `kind`, then its own settings.
pub open spec fn is_appender_doc(v: Value, a: AppenderModel) -> bool {
    match v {
        Value::Table(es) => es@.len() >= 1 && es@[0].0@ == "kind"@ && es@[0].1 is Str && text_of(es@[0].1)
            == a.kind && es@.subrange(1, es@.len() as int) == a.config,
        _ => false,
    }
}

/// `v` is a table whose entries are `named` in order, each in the form `is_doc` gives.
pub open spec fn is_named_appenders(v: Value, ms: Seq<(Seq<char>, AppenderModel)>) -> bool {
    match v {
        Value::Table(es) => es@.len() == ms.len() && forall|i: int|
            0 <= i < ms.len() ==> (#[trigger] es@[i]).0@ == ms[i].0 && is_appender_doc(es@[i].1, ms[i].1),
        _ => false,
    }
}

pub open spec fn is_named_loggers(v: Value, ms: Seq<(Seq<char>, LoggerModel)>) -> bool {
    match v {
        Value::Table(es) => es@.len() == ms.len() && forall|i: int|
            0 <= i < ms.len() ==> (#[trigger] es@[i]).0@ == ms[i].0 && is_logger_doc(es@[i].1, ms[i].1),
        _ => false,
    }
}

/// The document form of a configuration: `refresh_rate` if set, then
/// `root`, `appenders` and `loggers`.
pub open spec fn is_config_doc(v: Value, c: ConfigModel) -> bool {
    match v {
        Value::Table(es) => {
            let k: int = if c.refresh_rate is Some { 1 } else { 0 };
            es@.len() == k + 3 && (c.refresh_rate is Some ==> es@[0].0@ == "refresh_rate"@
                && es@[0].1 == Value::U64(c.refresh_rate->Some_0)) && es@[k].0@ == "root"@
                && is_root_doc(es@[k].1, c.root) && es@[k + 1].0@ == "appenders"@
                && is_named_appenders(es@[k + 1].1, c.appenders) && es@[k + 2].0@ == "loggers"@
                && is_named_loggers(es@[k + 2].1, c.loggers)
        },
        _ => false,
    }
}

proof fn lemma_front_key(es: Seq<(String, Value)>, key: Seq<char>)
    requires
        es.len() > 0,
        es[0].0@ == key,
    ensures
        lookup(es, key) == Some(es[0].1),
        without_key(es, key) == es.subrange(1, es.len() as int),
    decreases es.len(),
{
    if es.len() > 1 {
        assert(es.drop_last()[0] == es[0]);
        lemma_front_key(es.drop_last(), key);
        assert(es.drop_last().subrange(1, es.len() - 1).push(es.last()) =~= es.subrange(1, es.len() as int));
        assert(lookup(es, key) == lookup(es.drop_last(), key));
        assert(without_key(es, key) == without_key(es.drop_last(), key).push(es.last()));
    } else {
        assert(es.drop_last().len() == 0);
        assert(es.last() == es[0]);
        assert(lookup(es.drop_last(), key) is None);
        assert(without_key(es.drop_last(), key) == es.drop_last());
        assert(es.subrange(1, es.len() as int) =~= es.drop_last());
    }
}

proof fn lemma_absent_key(es: Seq<(String, Value)>, key: Seq<char>)
    requires
        forall|i: int| 0 <= i < es.len() ==> (#[trigger] es[i]).0@ != key,
    ensures
        lookup(es, key) is None,
        without_key(es, key) == es,
    decreases es.len(),
{
    if es.len() > 0 {
        assert forall|i: int| 0 <= i < es.drop_last().len() implies (#[trigger] es.drop_last()[i]).0@ != key by {
            assert(es.drop_last()[i] == es[i]);
        }
        lemma_absent_key(es.drop_last(), key);
        assert(es.drop_last().push(es.last()) =~= es);
    }
}

proof fn lemma_level_text(l: LevelFilter)
    ensures
        level_named(encode_utf8(level_text(l))) == Some(l),
{
    broadcast use vstd::string::is_ascii_spec_bytes;

    reveal_strlit("off");
    reveal_strlit("error");
    reveal_strlit("warn");
    reveal_strlit("info");
    reveal_strlit("debug");
    reveal_strlit("trace");
    assert(vstd::string::is_ascii("off"));
    assert(vstd::string::is_ascii("error"));
    assert(vstd::string::is_ascii("warn"));
    assert(vstd::string::is_ascii("info"));
    assert(vstd::string::is_ascii("debug"));
    assert(vstd::string::is_ascii("trace"));
    assert("off".spec_bytes() =~= seq![111u8, 102, 102]);
    assert("error".spec_bytes() =~= seq![101u8, 114, 114, 111, 114]);
    assert("warn".spec_bytes() =~= seq![119u8, 97, 114, 110]);
    assert("info".spec_bytes() =~= seq![105u8, 110, 102, 111]);
    assert("debug".spec_bytes() =~= seq![100u8, 101, 98, 117, 103]);
    assert("trace".spec_bytes() =~= seq![116u8, 114, 97, 99, 101]);
}

proof fn lemma_name_list(v: Value, ns: Seq<Seq<char>>)
    requires
        is_name_list(v, ns),
    ensures
        name_list(Some(v)) == Some(ns),
{
    if let Value::List(xs) = v {
        assert(xs@.map_values(|x: Value| text_of(x)) =~= ns);
    }
}

proof fn lemma_root_doc(v: Value, r: RootModel)
    requires
        is_root_doc(v, r),
    ensures
        parse_root(v) == Ok::<RootModel, Seq<Seq<char>>>(r),
{
    if let Value::Table(es) = v {
        lemma_front_key(es@, "level"@);
        let e1 = es@.subrange(1, 2);
        lemma_front_key(e1, "appenders"@);
        assert(e1.subrange(1, 1).len() == 0);
        lemma_level_text(r.level);
        lemma_name_list(e1[0].1, r.appenders);
    }
}

proof fn lemma_logger_doc(v: Value, l: LoggerModel)
    requires
        is_logger_doc(v, l),
    ensures
        parse_logger(v) == Ok::<LoggerModel, Seq<Seq<char>>>(l),
{
    if let Value::Table(es) = v {
        lemma_front_key(es@, "level"@);
        let e1 = es@.subrange(1, es@.len() as int);
        lemma_front_key(e1, "appenders"@);
        let e2 = e1.subrange(1, e1.len() as int);
        lemma_level_text(l.level);
        lemma_name_list(e1[0].1, l.appenders);
        if l.additive is Some {
            lemma_front_key(e2, "additive"@);
            assert(e2.subrange(1, 1).len() == 0);
        } else {
            assert(e2.len() == 0);
            lemma_absent_key(e2, "additive"@);
        }
    }
}

proof fn lemma_appender_doc(v: Value, a: AppenderModel)
    requires
        is_appender_doc(v, a),
    ensures
        parse_appender(v) == Ok::<AppenderModel, Seq<Seq<char>>>(a),
{
    if let Value::Table(es) = v {
        lemma_front_key(es@, "kind"@);
    }
}

proof fn lemma_appenders_doc(es: Seq<(String, Value)>, ms: Seq<(Seq<char>, AppenderModel)>)
    requires
        es.len() == ms.len(),
        forall|i: int| 0 <= i < ms.len() ==> (#[trigger] es[i]).0@ == ms[i].0 && is_appender_doc(es[i].1, ms[i].1),
    ensures
        parse_appenders(es) == Ok::<Seq<(Seq<char>, AppenderModel)>, Seq<Seq<char>>>(ms),
    decreases es.len(),
{
    if es.len() > 0 {
        assert forall|i: int| 0 <= i < ms.drop_last().len() implies (#[trigger] es.drop_last()[i]).0@ == ms.drop_last()[i].0
            && is_appender_doc(es.drop_last()[i].1, ms.drop_last()[i].1) by {
            assert(es[i].0@ == ms[i].0);
        }
        lemma_appenders_doc(es.drop_last(), ms.drop_last());
        let i: int = es.len() - 1;
        assert(es[i].0@ == ms[i].0);
        lemma_appender_doc(es.last().1, ms.last().1);
        assert(ms.drop_last().push((es.last().0@, ms.last().1)) =~= ms);
    } else {
        assert(ms =~= Seq::<(Seq<char>, AppenderModel)>::empty());
    }
}

proof fn lemma_loggers_doc(es: Seq<(String, Value)>, ms: Seq<(Seq<char>, LoggerModel)>)
    requires
        es.len() == ms.len(),
        forall|i: int| 0 <= i < ms.len() ==> (#[trigger] es[i]).0@ == ms[i].0 && is_logger_doc(es[i].1, ms[i].1),
    ensures
        parse_loggers(es) == Ok::<Seq<(Seq<char>, LoggerModel)>, Seq<Seq<char>>>(ms),
    decreases es.len(),
{
    if es.len() > 0 {
        assert forall|i: int| 0 <= i < ms.drop_last().len() implies (#[trigger] es.drop_last()[i]).0@ == ms.drop_last()[i].0
            && is_logger_doc(es.drop_last()[i].1, ms.drop_last()[i].1) by {
            assert(es[i].0@ == ms[i].0);
        }
        lemma_loggers_doc(es.drop_last(), ms.drop_last());
        let i: int = es.len() - 1;
        assert(es[i].0@ == ms[i].0);
        lemma_logger_doc(es.last().1, ms.last().1);
        assert(ms.drop_last().push((es.last().0@, ms.last().1)) =~= ms);
    } else {
        assert(ms =~= Seq::<(Seq<char>, LoggerModel)>::empty());
    }
}

/// Reading back the document form of a configuration yields that same
/// configuration, field for field.
pub proof fn lemma_round_trip(v: Value, c: ConfigModel)
    requires
        is_config_doc(v, c),
    ensures
        parse_config(v) == Ok::<ConfigModel, Seq<Seq<char>>>(c),
{
    reveal_strlit("refresh_rate");
    reveal_strlit("root");
    reveal_strlit("appenders");
    reveal_strlit("loggers");
    if let Value::Table(es) = v {
        let k: int = if c.refresh_rate is Some { 1 } else { 0 };
        let e0 = es@;
        if c.refresh_rate is Some {
            lemma_front_key(e0, "refresh_rate"@);
        } else {
            assert forall|i: int| 0 <= i < e0.len() implies (#[trigger] e0[i]).0@ != "refresh_rate"@ by {
                assert(e0[i].0@.len() != "refresh_rate"@.len());
            }
            lemma_absent_key(e0, "refresh_rate"@);
            assert(e0.subrange(k, e0.len() as int) =~= e0);
        }
        let e1 = e0.subrange(k, e0.len() as int);
        assert(e1[0] == e0[k]);
        lemma_front_key(e1, "root"@);
        let e2 = e1.subrange(1, e1.len() as int);
        assert(e2[0] == e0[k + 1]);
        lemma_front_key(e2, "appenders"@);
        let e3 = e2.subrange(1, e2.len() as int);
        assert(e3[0] == e0[k + 2]);
        lemma_front_key(e3, "loggers"@);
        assert(e3.subrange(1, e3.len() as int).len() == 0);
        lemma_root_doc(e0[k].1, c.root);
        if let Value::Table(xs) = e0[k + 1].1 {
            lemma_appenders_doc(xs@, c.appenders);
        }
        if let Value::Table(xs) = e0[k + 2].1 {
            lemma_loggers_doc(xs@, c.loggers);
        }
    }
}

/// Reading back and checking the document form of a valid configuration
/// yields that same configuration.
pub proof fn lemma_round_trip_checked(v: Value, c: ConfigModel)
    requires
        is_config_doc(v, c),
        valid(c),
    ensures
        parsed(v) == Ok::<ConfigModel, Fault>(c),
{
    lemma_round_trip(v, c);
}

fn level_doc(l: LevelFilter) -> (r: Value)
    ensures
        is_level_text(r, l),
{
    let t = match l {
        LevelFilter::Off => "off".to_owned(),
        LevelFilter::Error => "error".to_owned(),
        LevelFilter::Warn => "warn".to_owned(),
        LevelFilter::Info => "info".to_owned(),
        LevelFilter::Debug => "debug".to_owned(),
        LevelFilter::Trace => "trace".to_owned(),
    };
    Value::Str(t)
}

fn names_doc(ns: &Vec<String>) -> (r: Value)
    ensures
        is_name_list(r, names_view(ns@)),
{
    let mut xs: Vec<Value> = Vec::new();
    let mut i: usize = 0;
    while i < ns.len()
        invariant
            0 <= i <= ns@.len(),
            xs@.len() == i,
            forall|j: int| 0 <= j < i ==> #[trigger] xs@[j] is Str && text_of(xs@[j]) == ns@[j]@,
        decreases ns@.len() - i,
    {
        xs.push(Value::Str(ns[i].clone()));
        i = i + 1;
    }
    Value::List(xs)
}

fn root_doc(r: Root) -> (v: Value)
    ensures
        is_root_doc(v, r@),
{
    let es: Vec<(String, Value)> = vec![
        ("level".to_owned(), level_doc(r.level)),
        ("appenders".to_owned(), names_doc(&r.appenders)),
    ];
    Value::Table(es)
}

fn logger_doc(l: Logger) -> (v: Value)
    ensures
        is_logger_doc(v, l@),
{
    let mut es: Vec<(String, Value)> = vec![
        ("level".to_owned(), level_doc(l.level)),
        ("appenders".to_owned(), names_doc(&l.appenders)),
    ];
    match l.additive {
        Some(b) => es.push(("additive".to_owned(), Value::Bool(b))),
        None => {},
    }
    Value::Table(es)
}

fn appender_doc(a: Appender) -> (v: Value)
    ensures
        is_appender_doc(v, a@),
{
    let ghost model = a@;
    let mut config = a.config;
    let mut es: Vec<(String, Value)> = vec![("kind".to_owned(), Value::Str(a.kind))];
    es.append(&mut config);
    proof {
        assert(es@.subrange(1, es@.len() as int) =~= model.config);
    }
    Value::Table(es)
}

fn appenders_doc(xs: Vec<(String, Appender)>) -> (v: Value)
    ensures
        is_named_appenders(v, appenders_view(xs@)),
{
    let n: usize = xs.len();
    let ghost ms = appenders_view(xs@);
    let mut pending = xs;
    let mut es: Vec<(String, Value)> = Vec::new();
    let mut i: usize = 0;
    while pending.len() > 0
        invariant
            i + pending@.len() == n,
            ms.len() == n,
            appenders_view(pending@) == ms.subrange(i as int, n as int),
            es@.len() == i,
            forall|j: int| 0 <= j < i ==> (#[trigger] es@[j]).0@ == ms[j].0 && is_appender_doc(es@[j].1, ms[j].1),
        decreases pending@.len(),
    {
        let ghost before = pending@;
        let (k, a) = pending.remove(0);
        proof {
            assert(appenders_view(before)[0] == ms[i as int]);
            assert(pending@ =~= before.subrange(1, before.len() as int));
            assert forall|j: int| 0 <= j < pending@.len() implies appenders_view(pending@)[j] == ms[i + 1 + j] by {
                assert(appenders_view(before)[j + 1] == ms.subrange(i as int, n as int)[j + 1]);
            }
            assert(appenders_view(pending@) =~= ms.subrange(i + 1, n as int));
        }
        es.push((k, appender_doc(a)));
        i = i + 1;
    }
    Value::Table(es)
}

fn loggers_doc(xs: Vec<(String, Logger)>) -> (v: Value)
    ensures
        is_named_loggers(v, loggers_view(xs@)),
{
    let n: usize = xs.len();
    let ghost ms = loggers_view(xs@);
    let mut pending = xs;
    let mut es: Vec<(String, Value)> = Vec::new();
    let mut i: usize = 0;
    while pending.len() > 0
        invariant
            i + pending@.len() == n,
            ms.len() == n,
            loggers_view(pending@) == ms.subrange(i as int, n as int),
            es@.len() == i,
            forall|j: int| 0 <= j < i ==> (#[trigger] es@[j]).0@ == ms[j].0 && is_logger_doc(es@[j].1, ms[j].1),
        decreases pending@.len(),
    {
        let ghost before = pending@;
        let (k, l) = pending.remove(0);
        proof {
            assert(loggers_view(before)[0] == ms[i as int]);
            assert(pending@ =~= before.subrange(1, before.len() as int));
            assert forall|j: int| 0 <= j < pending@.len() implies loggers_view(pending@)[j] == ms[i + 1 + j] by {
                assert(loggers_view(before)[j + 1] == ms.subrange(i as int, n as int)[j + 1]);
            }
            assert(loggers_view(pending@) =~= ms.subrange(i + 1, n as int));
        }
        es.push((k, logger_doc(l)));
        i = i + 1;
    }
    Value::Table(es)
}

impl Config {
    /// Writes this configuration back in document form: `refresh_rate` if
    /// set, then `root`, `appenders` and `loggers`, entries in their order.
    pub fn to_document(self) -> (v: Value)
        ensures
            is_config_doc(v, self@),
    {
        let mut es: Vec<(String, Value)> = Vec::new();
        match self.refresh_rate {
            Some(n) => es.push(("refresh_rate".to_owned(), Value::U64(n))),
            None => {},
        }
        es.push(("root".to_owned(), root_doc(self.root)));
        es.push(("appenders".to_owned(), appenders_doc(self.appenders)));
        es.push(("loggers".to_owned(), loggers_doc(self.loggers)));
        Value::Table(es)
    }
}

} // verus!
