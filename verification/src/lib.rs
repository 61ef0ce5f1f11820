//! A verified core for driving XGBoost's C library.
//!
//! Nothing here calls the C library. Each operation says which call comes next and takes the
//! reply, until it finishes; the calls themselves are made by whoever runs the operation. What
//! an operation asks for, and what it makes of the replies, is proved.

pub mod array_interface;
pub mod attributes;
pub mod booster;
pub mod call;
pub mod cbuf;
pub mod course;
pub mod ctext;
pub mod dump;
pub mod error;
pub mod evaluation;
pub mod feature_map;
pub mod matrix;
pub mod number;
pub mod outline;
pub mod predict;
pub mod predict_config;
pub mod prediction;
pub mod reading;
pub mod report;
pub mod scores;
pub mod shapes;
pub mod text;
pub mod train;
pub mod training;
pub mod version;

pub use booster::{Booster, BuildEvent, LoadEvent, MissingValue};
pub use call::{Call, Config, Request, Step};
pub use dump::{DumpEvent, DumpStep};
pub use error::{XGBError, XGBResult};
pub use feature_map::{FeatureMap, FeatureType};
pub use matrix::{ArrayRef, DMatrix};
pub use predict::{PredictConfig, PredictType};
pub use prediction::InplaceEvent;
pub use scores::{Evaluation, Metrics};
pub use text::IntFault;
pub use train::{TrainEvent, TrainStep, Training, TrainingParameters};
pub use training::{BoostEvent, CustomEvent, CustomStep};
