//! Conversion of `.env`-style key/value text into a Kubernetes ConfigMap
//! manifest: a line parser producing tokens, and a renderer producing YAML.

pub mod parser;
pub mod render;
pub mod text;
pub mod token;

pub use parser::parse;
pub use render::{template, TemplateConfig, WriteConfig};
pub use token::{EnvToken, ParseConfig, ParseError};
