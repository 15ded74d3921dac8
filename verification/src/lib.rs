//! Normalised access to the Linux CPU frequency-scaling and thermal control
//! files: which files there are, what their contents mean, and what is to be
//! written to them.
//!
//! The library decides and the caller acts. It never opens a file: a query
//! takes the content that the caller read (or `None` where the file could
//! not be read), and a change returns the writes that the caller is to
//! perform, whose outcomes the caller hands back for the final result. So
//! every function here is a function of its arguments alone, and its
//! contract says what it returns for each of them.
//!
//! - [`cores`], [`driver`], [`cpu`]: the cores, their scaling driver, and
//!   frequency, governor and turbo control.
//! - [`thermal`]: thermal zones, trip points and the processor's temperature.
//! - [`profile`]: named power policies and what applying one writes.
//! - [`summary`]: figures for a status display.
//! - [`plan`], [`snapshot`], [`error`]: writes as data, all-or-nothing
//!   snapshots, and what can go wrong.
//! - [`text`], [`words`], [`order`], [`model`], [`paths`]: the texts of the
//!   kernel's files and where they are.
//! - [`store`], [`laws`]: a picture of the files under the caller's writes,
//!   and what holds of the library as a whole.

pub mod cores;
pub mod cpu;
pub mod driver;
pub mod error;
pub mod laws;
pub mod model;
pub mod order;
pub mod paths;
pub mod plan;
pub mod profile;
pub mod snapshot;
pub mod store;
pub mod summary;
pub mod text;
pub mod thermal;
pub mod words;
