//! Verified core of the command line tool that submits kernels to the MOA 2026 kernel
//! optimization competition.
//!
//! The library decides and computes; a thin program around it talks to the disk, the
//! network, the clock and the terminal. Where a command alternates between the two, the
//! library holds it as a state: it says what to do next, is told how that went, and is in
//! the next state.
//!
//! | Module | |
//! | --- | --- |
//! | [`failure`] | how a command fails |
//! | [`server`] | which server, and the addresses on it |
//! | [`http`] | what an answer means, and when a request is sent again |
//! | [`token`] | where the token is kept, and which one is used |
//! | [`login`] | logging in |
//! | [`repository`] | finding the repository |
//! | [`walk`], [`sources`] | gathering the files of a submission, and when they may be sent |
//! | [`manifest`], [`submit`] | showing and sending them |
//! | [`submission`], [`status`], [`table`], [`detail`] | showing submissions |
//! | [`log`] | showing the log of one |
//! | [`text`], [`order`], [`encoding`] | texts, their order, and their form in a URL |

pub mod detail;
pub mod encoding;
pub mod failure;
pub mod http;
pub mod log;
pub mod login;
pub mod manifest;
pub mod order;
pub mod repository;
pub mod server;
pub mod sources;
pub mod status;
pub mod submission;
pub mod submit;
pub mod table;
pub mod text;
pub mod token;
pub mod walk;
