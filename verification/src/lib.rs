//! A fluent value dispatcher in the style of a `switch` statement.
//!
//! [`switch::Switch`] tries its cases one at a time; [`switch::HashMapSwitch`]
//! takes a whole table of them at once. Both end in a `default` step that
//! falls back on a producer of last resort. The module [`model`] says what
//! each step does to the result slot, and [`lemmas`] proves what follows.

pub mod lemmas;
pub mod model;
pub mod switch;
