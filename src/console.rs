use vstd::prelude::*;
use crate::value::{Value, find_key, first_other, lookup, without_key, take_key};
use crate::registry::{BuildError, Category, Registry};

verus! {

/// The encoder a component is configured with: its kind and its own settings.
#[derive(Debug, PartialEq, Eq)]
pub struct EncoderSpec {
    pub kind: String,
    pub config: Vec<(String, Value)>,
}

/// What a console appender is built from: the encoder to use, if one is
/// configured (otherwise the default pattern encoder).
#[derive(Debug, PartialEq, Eq)]
pub struct ConsoleAppenderSpec {
    pub encoder: Option<EncoderSpec>,
}

/// Reads the settings of a console appender.
pub struct ConsoleAppenderDeserializer;

/// The outcome of reading console appender settings, with errors as
/// `(is_unknown_kind, name)`: an unknown encoder kind, or the offending field.
pub open spec fn console_settings(config: Seq<(String, Value)>, kinds: Set<Seq<char>>) -> Result<Option<(Seq<char>, Seq<(String, Value)>)>, (bool, Seq<char>)> {
    let rest = without_key(config, "encoder"@);
    if rest.len() > 0 {
        Err((false, rest[0].0@))
    } else {
        match lookup(config, "encoder"@) {
            None => Ok(None),
            Some(Value::Table(es)) => match lookup(es@, "kind"@) {
                Some(Value::Str(k)) => if kinds.contains(k@) {
                    Ok(Some((k@, without_key(es@, "kind"@))))
                } else {
                    Err((true, k@))
                },
                _ => Err((false, "encoder"@)),
            },
            _ => Err((false, "encoder"@)),
        }
    }
}

/// The kind under which console appenders are configured.
pub open spec fn console_kind() -> Seq<char> {
    "console"@
}

impl ConsoleAppenderDeserializer {
    /// Checks `config` as `build` reads it, without taking it.
    pub fn check(&self, config: &Vec<(String, Value)>, registry: &Registry) -> (r: Result<(), BuildError>)
        ensures
            match (r, console_settings(config@, registry.kinds(Category::Encoder))) {
                (Ok(_), Ok(_)) => true,
                (Err(BuildError::UnknownKind(k)), Err((true, n))) => k@ == n,
                (Err(BuildError::InvalidConfig(f)), Err((false, n))) => f@ == n,
                _ => false,
            },
    {
        let key = "encoder".to_owned();
        if let Some(k) = first_other(config, &key) {
            return Err(BuildError::InvalidConfig(k.clone()));
        }
        match find_key(config, &key) {
            None => Ok(()),
            Some(Value::Table(es)) => match find_key(es, &"kind".to_owned()) {
                Some(Value::Str(k)) => registry.check(Category::Encoder, k),
                _ => Err(BuildError::InvalidConfig("encoder".to_owned())),
            },
            _ => Err(BuildError::InvalidConfig("encoder".to_owned())),
        }
    }

    /// Reads `config`, whose only accepted key is an optional `encoder`
    /// table with a string `kind`; that kind must be registered as an encoder.
    pub fn build(&self, config: Vec<(String, Value)>, registry: &Registry) -> (r: Result<ConsoleAppenderSpec, BuildError>)
        ensures
            match (r, console_settings(config@, registry.kinds(Category::Encoder))) {
                (Ok(spec), Ok(None)) => spec.encoder is None,
                (Ok(spec), Ok(Some((k, c)))) => spec.encoder is Some && spec.encoder->Some_0.kind@ == k
                    && spec.encoder->Some_0.config@ == c,
                (Err(BuildError::UnknownKind(k)), Err((true, n))) => k@ == n,
                (Err(BuildError::InvalidConfig(f)), Err((false, n))) => f@ == n,
                _ => false,
            },
    {
        let (encoder, rest) = take_key(config, &"encoder".to_owned());
        if rest.len() > 0 {
            return Err(BuildError::InvalidConfig(rest[0].0.clone()));
        }
        match encoder {
            None => Ok(ConsoleAppenderSpec { encoder: None }),
            Some(Value::Table(es)) => {
                let (kind, settings) = take_key(es, &"kind".to_owned());
                match kind {
                    Some(Value::Str(k)) => {
                        registry.check(Category::Encoder, &k)?;
                        Ok(ConsoleAppenderSpec { encoder: Some(EncoderSpec { kind: k, config: settings }) })
                    },
                    _ => Err(BuildError::InvalidConfig("encoder".to_owned())),
                }
            },
            _ => Err(BuildError::InvalidConfig("encoder".to_owned())),
        }
    }
}

} // verus!
