pub mod accepting;
pub mod asking;
pub mod auth;
pub mod binary;
pub mod budget;
pub mod candidate;
pub mod checkpoint;
pub mod choosing;
pub mod deciding;
pub mod deltas;
pub mod documents;
pub mod envelope;
pub mod error;
pub mod evaluation;
pub mod files;
pub mod finding;
pub mod fitting;
pub mod history;
pub mod hunks;
pub mod json;
pub mod judging;
pub mod lanes;
pub mod lexical;
pub mod links;
pub mod listing;
pub mod open;
pub mod opening;
pub mod order;
pub mod outside;
pub mod pages;
pub mod paths;
pub mod planning;
pub mod ranking;
pub mod read;
pub mod reading;
pub mod receipts;
pub mod records;
pub mod render;
pub mod requests;
pub mod resume;
pub mod resuming;
pub mod score;
pub mod search;
pub mod seqs;
pub mod sharing;
pub mod showing;
pub mod sources;
pub mod spelling;
pub mod text;
pub mod upsert;
pub mod verbatim;
pub mod write;
pub mod wording;
