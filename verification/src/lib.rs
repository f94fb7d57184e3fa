//! Git Ents — helpful guardians of your git trees.

pub mod text;
pub mod asciicast;
pub mod object_id;
pub mod seqs;
pub mod bytes;
pub mod pktline;
pub mod http;
pub mod server;
pub mod native_git;
pub mod keyed;
pub mod random;
pub mod auth;
pub mod members;
pub mod signers;
pub mod config;
pub mod revocations;
pub mod checks;
pub mod reviews;
pub mod issues;
pub mod comments;
pub mod account;
pub mod runner;
pub mod forms;
pub mod sessions;
pub mod web_edit;
pub mod order;
pub mod tree;
pub mod render;
pub mod verify;
pub mod routes;
pub mod shell;
pub mod files;
pub mod history;
pub mod check_pages;
pub mod settings_pages;
pub mod debug;
pub mod documents;
pub mod registry;
pub mod keys;
pub mod porcelain;
pub mod member_edit;
pub mod component;
pub mod error;
pub mod interactive;
pub mod sign;
pub mod mutate;
pub mod commands;
pub mod process;
pub mod schedule;
pub mod cli;
pub mod exe;
pub mod live;
pub mod pages;
