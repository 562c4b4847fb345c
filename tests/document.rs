use logconf::{
    BuildError, Category, Config, ConsoleAppenderDeserializer, ConsoleAppenderSpec, LevelFilter,
    Registry, Value,
};

fn s(x: &str) -> String {
    x.to_string()
}

fn text(x: &str) -> Value {
    Value::Str(s(x))
}

fn sample() -> Value {
    Value::Table(vec![
        (s("refresh_rate"), Value::U64(30)),
        (
            s("root"),
            Value::Table(vec![(s("level"), text("warn")), (s("appenders"), Value::List(vec![text("stdout")]))]),
        ),
        (
            s("appenders"),
            Value::Table(vec![(
                s("stdout"),
                Value::Table(vec![
                    (s("kind"), text("console")),
                    (s("encoder"), Value::Table(vec![(s("kind"), text("pattern"))])),
                ]),
            )]),
        ),
        (
            s("loggers"),
            Value::Table(vec![
                (
                    s("app.db"),
                    Value::Table(vec![
                        (s("level"), text("debug")),
                        (s("appenders"), Value::List(vec![text("stdout")])),
                        (s("additive"), Value::Bool(false)),
                    ]),
                ),
                (s("app"), Value::Table(vec![(s("level"), text("Error"))])),
            ]),
        ),
    ])
}

#[test]
fn document_round_trip_keeps_config() {
    let first = Config::parse(sample()).unwrap();
    let again = Config::parse(Config::parse(sample()).unwrap().to_document()).unwrap();
    assert_eq!(first, again);
    assert_eq!(again.refresh_rate, Some(30));
    assert_eq!(again.loggers[1].1.level, LevelFilter::Error);
    assert_eq!(again.loggers[1].1.additive, None);
}

#[test]
fn document_form_is_canonical() {
    let doc = Config::parse(sample()).unwrap().to_document();
    let Value::Table(es) = doc else { panic!("not a table") };
    let keys: Vec<&str> = es.iter().map(|e| e.0.as_str()).collect();
    assert_eq!(keys, vec!["refresh_rate", "root", "appenders", "loggers"]);
    let Value::Table(root) = &es[1].1 else { panic!("root is not a table") };
    assert_eq!(root[0], (s("level"), text("warn")));
}

#[test]
fn round_trip_without_refresh_rate() {
    let mut d = sample();
    if let Value::Table(es) = &mut d {
        es.remove(0);
    }
    let c = Config::parse(d).unwrap();
    assert_eq!(c.refresh_rate, None);
    let doc = Config::parse(c.to_document()).unwrap();
    assert_eq!(doc.refresh_rate, None);
    assert_eq!(doc.root.appenders, vec![s("stdout")]);
}

fn encoders() -> Registry {
    let mut r = Registry::new();
    r.register(Category::Encoder, s("pattern"));
    r
}

#[test]
fn console_settings_read_encoder() {
    let cfg = vec![(s("encoder"), Value::Table(vec![(s("kind"), text("pattern")), (s("pattern"), text("{m}"))]))];
    let spec = ConsoleAppenderDeserializer.build(cfg, &encoders()).unwrap();
    let e = spec.encoder.unwrap();
    assert_eq!(e.kind, s("pattern"));
    assert_eq!(e.config, vec![(s("pattern"), text("{m}"))]);
}

#[test]
fn console_settings_default_encoder() {
    let spec = ConsoleAppenderDeserializer.build(vec![], &encoders()).unwrap();
    assert_eq!(spec, ConsoleAppenderSpec { encoder: None });
}

#[test]
fn console_settings_errors() {
    let unknown = vec![(s("encoder"), Value::Table(vec![(s("kind"), text("json"))]))];
    assert_eq!(
        ConsoleAppenderDeserializer.build(unknown, &encoders()).err(),
        Some(BuildError::UnknownKind(s("json")))
    );
    let bad = vec![(s("encoder"), text("pattern"))];
    assert_eq!(
        ConsoleAppenderDeserializer.build(bad, &encoders()).err(),
        Some(BuildError::InvalidConfig(s("encoder")))
    );
    let extra = vec![(s("target"), text("stderr"))];
    assert_eq!(
        ConsoleAppenderDeserializer.build(extra, &encoders()).err(),
        Some(BuildError::InvalidConfig(s("target")))
    );
}
