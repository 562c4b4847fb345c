//! Configuration-driven core of a hierarchical logging framework: a document
//! model, validated configuration, component registry, logger topology and a
//! refresh controller that only ever publishes fully built topologies.

pub mod level;
pub mod value;
pub mod config;
pub mod registry;
pub mod topology;
pub mod refresh;
pub mod document;
pub mod console;

pub use level::LevelFilter;
pub use value::Value;
pub use config::{Appender, Config, Logger, ParseError, Root};
pub use registry::{BuildError, Category, Registry};
pub use topology::{Topology, TopologyError};
pub use refresh::Controller;
pub use console::{ConsoleAppenderDeserializer, ConsoleAppenderSpec, EncoderSpec};
