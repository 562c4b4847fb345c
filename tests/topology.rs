use logconf::{
    BuildError, Category, Config, Controller, LevelFilter, Logger, ParseError, Registry, Root,
    Topology, TopologyError, Value,
};

fn s(x: &str) -> String {
    x.to_string()
}

fn text(x: &str) -> Value {
    Value::Str(s(x))
}

fn names(xs: &[&str]) -> Value {
    Value::List(xs.iter().map(|x| text(x)).collect())
}

fn appender(kind: &str) -> Value {
    Value::Table(vec![(s("kind"), text(kind))])
}

fn logger(level: &str, apps: &[&str], additive: Option<bool>) -> Value {
    let mut es = vec![(s("level"), text(level)), (s("appenders"), names(apps))];
    if let Some(b) = additive {
        es.push((s("additive"), Value::Bool(b)));
    }
    Value::Table(es)
}

fn doc(root_apps: &[&str], apps: Vec<(&str, &str)>, loggers: Vec<(&str, Value)>) -> Value {
    Value::Table(vec![
        (s("root"), Value::Table(vec![(s("level"), text("info")), (s("appenders"), names(root_apps))])),
        (
            s("appenders"),
            Value::Table(apps.into_iter().map(|(n, k)| (s(n), appender(k))).collect()),
        ),
        (s("loggers"), Value::Table(loggers.into_iter().map(|(n, l)| (s(n), l)).collect())),
    ])
}

fn registry() -> Registry {
    let mut r = Registry::new();
    r.register(Category::Appender, s("console"));
    r.register(Category::Encoder, s("pattern"));
    r
}

fn sorted(mut v: Vec<String>) -> Vec<String> {
    v.sort();
    v
}

#[test]
fn additive_logger_inherits_root_appenders() {
    let d = doc(&["a"], vec![("a", "console"), ("b", "console")], vec![("x", logger("warn", &["b"], Some(true)))]);
    let t = Topology::from_document(d, &registry()).unwrap();
    assert_eq!(sorted(t.effective_appenders("x")), vec![s("a"), s("b")]);
}

#[test]
fn non_additive_logger_stops_inheritance() {
    let d = doc(&["a"], vec![("a", "console"), ("b", "console")], vec![("x", logger("warn", &["b"], Some(false)))]);
    let t = Topology::from_document(d, &registry()).unwrap();
    assert_eq!(sorted(t.effective_appenders("x")), vec![s("b")]);
    assert_eq!(sorted(t.effective_appenders("x.y")), vec![s("b")]);
    assert_eq!(sorted(t.effective_appenders("other")), vec![s("a")]);
}

#[test]
fn descendant_inherits_nearest_level() {
    let d = doc(&[], vec![], vec![("x", logger("WARN", &[], None)), ("x.y.z", logger("trace", &[], None))]);
    let t = Topology::from_document(d, &registry()).unwrap();
    assert_eq!(t.effective_level("x.y"), LevelFilter::Warn);
    assert_eq!(t.effective_level("x"), LevelFilter::Warn);
    assert_eq!(t.effective_level("x.y.z.w"), LevelFilter::Trace);
    assert_eq!(t.effective_level("xy"), LevelFilter::Info);
    assert_eq!(t.effective_level(""), LevelFilter::Info);
}

#[test]
fn appenders_are_not_repeated() {
    let d = doc(&["a"], vec![("a", "console")], vec![("x", logger("warn", &["a", "a"], None))]);
    let t = Topology::from_document(d, &registry()).unwrap();
    assert_eq!(t.effective_appenders("x.q"), vec![s("a")]);
}

#[test]
fn lookups_are_repeatable() {
    let d = doc(&["a"], vec![("a", "console"), ("b", "console")], vec![("x", logger("debug", &["b"], None))]);
    let t = Topology::from_document(d, &registry()).unwrap();
    assert_eq!(t.effective_level("x.y"), t.effective_level("x.y"));
    assert_eq!(t.effective_appenders("x.y"), t.effective_appenders("x.y"));
}

#[test]
fn unknown_kind_fails_whole_build() {
    let d = doc(&["a"], vec![("a", "console"), ("b", "socket")], vec![]);
    let r = Topology::from_document(d, &registry());
    assert_eq!(r.err(), Some(TopologyError::Build(BuildError::UnknownKind(s("socket")))));
}

#[test]
fn every_reference_has_a_handle() {
    let d = doc(&["a"], vec![("a", "console"), ("b", "console")], vec![("x", logger("warn", &["b"], None))]);
    let t = Topology::from_document(d, &registry()).unwrap();
    assert_eq!(t.appender_count(), 2);
    assert_eq!(t.handle_of(&s("a")), Some(0));
    assert_eq!(t.handle_of(&s("b")), Some(1));
    assert_eq!(t.handle_of(&s("c")), None);
}

#[test]
fn failed_refresh_keeps_previous_topology() {
    let d = doc(&["a"], vec![("a", "console")], vec![("x", logger("warn", &[], None))]);
    let t = Topology::from_document(d, &registry()).unwrap();
    let mut c = Controller::new(t);
    let bad = Value::Table(vec![(s("root"), Value::Bool(true))]);
    let r = c.refresh(bad, &registry());
    assert_eq!(r, Err(TopologyError::Parse(ParseError::Malformed(vec![s("root")]))));
    assert_eq!(c.topology().effective_level("x.y"), LevelFilter::Warn);
    assert_eq!(c.topology().effective_appenders("x.y"), vec![s("a")]);
}

#[test]
fn successful_refresh_publishes_new_topology() {
    let d = doc(&["a"], vec![("a", "console")], vec![]);
    let t = Topology::from_document(d, &registry()).unwrap();
    let mut c = Controller::new(t);
    assert!(!c.due(1000));
    let mut next = doc(&[], vec![], vec![("x", logger("error", &[], None))]);
    if let Value::Table(es) = &mut next {
        es.push((s("refresh_rate"), Value::U64(30)));
    }
    assert_eq!(c.refresh(next, &registry()), Ok(()));
    assert_eq!(c.topology().effective_level("x"), LevelFilter::Error);
    assert!(c.due(30));
    assert!(!c.due(29));
}

#[test]
fn parse_reports_missing_level() {
    let d = Value::Table(vec![(s("root"), Value::Table(vec![]))]);
    assert_eq!(Config::parse(d).err(), Some(ParseError::Malformed(vec![s("root"), s("level")])));
}

#[test]
fn parse_reports_unknown_field() {
    let d = Value::Table(vec![
        (s("root"), Value::Table(vec![(s("level"), text("info"))])),
        (s("colour"), Value::Bool(true)),
    ]);
    assert_eq!(Config::parse(d).err(), Some(ParseError::Malformed(vec![s("colour")])));
}

#[test]
fn parse_reports_duplicate_names() {
    let d = doc(&[], vec![("a", "console"), ("a", "console")], vec![]);
    assert_eq!(Config::parse(d).err(), Some(ParseError::DuplicateName(s("a"))));
}

#[test]
fn parse_reports_unknown_appender() {
    let d = doc(&["a"], vec![("a", "console")], vec![("x", logger("warn", &["ghost"], None))]);
    assert_eq!(Config::parse(d).err(), Some(ParseError::UnknownAppender(s("ghost"))));
}

#[test]
fn parse_reads_all_fields() {
    let d = doc(&["a"], vec![("a", "console")], vec![("x.y", logger("debug", &["a"], Some(false)))]);
    let c = Config::parse(d).unwrap();
    assert_eq!(c.refresh_rate, None);
    assert_eq!(c.root, Root { level: LevelFilter::Info, appenders: vec![s("a")] });
    assert_eq!(c.appenders.len(), 1);
    assert_eq!(c.appenders[0].0, s("a"));
    assert_eq!(c.appenders[0].1.kind, s("console"));
    assert_eq!(
        c.loggers,
        vec![(s("x.y"), Logger { level: LevelFilter::Debug, appenders: vec![s("a")], additive: Some(false) })]
    );
}

#[test]
fn logger_defaults_to_additive() {
    let l = Logger::deserialize(logger("info", &[], None)).unwrap();
    assert!(l.is_additive());
    assert_eq!(l.appenders, Vec::<String>::new());
    let r = Root::deserialize(Value::Bool(false));
    assert_eq!(r.err(), Some(ParseError::Malformed(vec![])));
}

#[test]
fn level_names_ignore_case() {
    assert_eq!(LevelFilter::from_name("WaRn"), Some(LevelFilter::Warn));
    assert_eq!(LevelFilter::from_name("off"), Some(LevelFilter::Off));
    assert_eq!(LevelFilter::from_name("verbose"), None);
    assert_eq!(LevelFilter::Debug.name(), "debug");
    assert!(LevelFilter::Info.enabled(LevelFilter::Warn));
    assert!(!LevelFilter::Warn.enabled(LevelFilter::Info));
}

#[test]
fn registry_reports_unknown_kind() {
    let r = registry();
    assert!(r.has_kind(Category::Appender, &s("console")));
    assert!(!r.has_kind(Category::Encoder, &s("console")));
    assert_eq!(r.check(Category::Encoder, &s("json")), Err(BuildError::UnknownKind(s("json"))));
}

#[test]
fn cached_lookups_follow_refresh() {
    let d = doc(&["a"], vec![("a", "console")], vec![("x", logger("warn", &[], None))]);
    let t = Topology::from_document(d, &registry()).unwrap();
    let mut c = Controller::new(t);
    let first = c.lookup("x.y");
    let second = c.lookup("x.y");
    assert_eq!(first, (LevelFilter::Warn, vec![s("a")]));
    assert_eq!(first, second);
    let next = doc(&[], vec![("b", "console")], vec![("x", logger("trace", &["b"], None))]);
    assert_eq!(c.refresh(next, &registry()), Ok(()));
    assert_eq!(c.lookup("x.y"), (LevelFilter::Trace, vec![s("b")]));
}

#[test]
fn missing_appenders_or_loggers_is_malformed() {
    let root = || (s("root"), Value::Table(vec![(s("level"), text("info"))]));
    let only_root = Value::Table(vec![root()]);
    assert_eq!(Config::deserialize(only_root).err(), Some(ParseError::Malformed(vec![s("appenders")])));
    let no_loggers = Value::Table(vec![root(), (s("appenders"), Value::Table(vec![]))]);
    assert_eq!(Config::deserialize(no_loggers).err(), Some(ParseError::Malformed(vec![s("loggers")])));
    let bad_loggers = Value::Table(vec![root(), (s("appenders"), Value::Table(vec![])), (s("loggers"), Value::U64(5))]);
    assert_eq!(Config::deserialize(bad_loggers).err(), Some(ParseError::Malformed(vec![s("loggers")])));
}

#[test]
fn malformed_field_gives_its_path() {
    let d = doc(&[], vec![], vec![("app.db", logger("loud", &[], None))]);
    assert_eq!(
        Config::deserialize(d).err(),
        Some(ParseError::Malformed(vec![s("loggers"), s("app.db"), s("level")]))
    );
    let d = doc(&[], vec![("out", "console")], vec![]);
    let Value::Table(mut es) = d else { panic!("not a table") };
    es[1] = (s("appenders"), Value::Table(vec![(s("out"), Value::Table(vec![]))]));
    assert_eq!(
        Config::deserialize(Value::Table(es)).err(),
        Some(ParseError::Malformed(vec![s("appenders"), s("out"), s("kind")]))
    );
}

#[test]
fn deserialize_checks_names_and_references() {
    let dangling = doc(&["nowhere"], vec![("a", "console")], vec![]);
    assert_eq!(Config::deserialize(dangling).err(), Some(ParseError::UnknownAppender(s("nowhere"))));
    let twice = doc(&["nowhere"], vec![("a", "console"), ("a", "console")], vec![]);
    assert_eq!(Config::deserialize(twice).err(), Some(ParseError::DuplicateName(s("a"))));
    let loggers_twice = doc(&[], vec![], vec![("x", logger("warn", &[], None)), ("x", logger("info", &[], None))]);
    assert_eq!(Config::deserialize(loggers_twice).err(), Some(ParseError::DuplicateName(s("x"))));
}

fn console_with(settings: Vec<(String, Value)>) -> Value {
    let mut es = vec![(s("kind"), text("console"))];
    es.extend(settings);
    Value::Table(vec![
        (s("root"), Value::Table(vec![(s("level"), text("info")), (s("appenders"), names(&["out"]))])),
        (s("appenders"), Value::Table(vec![(s("out"), Value::Table(es))])),
        (s("loggers"), Value::Table(vec![])),
    ])
}

#[test]
fn bad_console_settings_fail_whole_build() {
    let extra = console_with(vec![(s("target"), text("stderr"))]);
    assert_eq!(
        Topology::from_document(extra, &registry()).err(),
        Some(TopologyError::Build(BuildError::InvalidConfig(s("target"))))
    );
    let unknown = console_with(vec![(s("encoder"), Value::Table(vec![(s("kind"), text("json"))]))]);
    assert_eq!(
        Topology::from_document(unknown, &registry()).err(),
        Some(TopologyError::Build(BuildError::UnknownKind(s("json"))))
    );
    let good = console_with(vec![(s("encoder"), Value::Table(vec![(s("kind"), text("pattern"))]))]);
    assert!(Topology::from_document(good, &registry()).is_ok());
}

#[test]
fn refresh_with_bad_settings_keeps_topology() {
    let d = doc(&["a"], vec![("a", "console")], vec![("x", logger("warn", &[], None))]);
    let mut c = Controller::new(Topology::from_document(d, &registry()).unwrap());
    let bad = console_with(vec![(s("target"), text("stderr"))]);
    assert_eq!(c.refresh(bad, &registry()), Err(TopologyError::Build(BuildError::InvalidConfig(s("target")))));
    assert_eq!(c.lookup("x"), (LevelFilter::Warn, vec![s("a")]));
}
