//! Finds, in a grading platform's export of submission PDFs, the questions of
//! an assignment's outline that each submission never matched to a page, and
//! words the notices for the students concerned.
//!
//! - `grammar` reads the question numbers that the platform renders into each
//!   PDF, from the PDF's text with white space removed;
//! - `pdf` turns one archive entry into a submission id and that text, given
//!   the page count and text that a PDF library found in the entry;
//! - `question` holds question numbers, their order and text form, and the
//!   outline tree with its depth-first list of questions;
//! - `unmatched` computes the outline questions a submission left unmatched;
//! - `submission` holds the roster that maps submissions to students;
//! - `pipeline` says what each archive entry contributes to a run;
//! - `report` words the notice, the CSV line and the page-matching link;
//! - `assignment`, `course` and `homework` pick assignments and courses and
//!   pair individual homeworks with groupworks.
pub mod assignment;
pub mod course;
pub mod creds;
pub mod error;
pub mod grammar;
pub mod homework;
pub mod pdf;
pub mod pipeline;
pub mod question;
pub mod report;
pub mod submission;
pub mod text;
pub mod types;
pub mod unmatched;
pub mod util;
