//! Running a recipe: the parameters of its steps, what their outputs ask of the
//! browser, and the state of a run.
pub mod ack;
pub mod context;
pub mod frontend;
pub mod params;
pub mod run;
pub mod wave;
