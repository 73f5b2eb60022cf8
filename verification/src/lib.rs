use vstd::prelude::*;

pub mod assertions;
pub mod commands;
pub mod domain;
pub mod examples;
pub mod export;
pub mod http;
pub mod import_openapi;
pub mod imports;
pub mod json;
pub mod jsonc;
pub mod jsonpath;
pub mod legacy;
pub mod openapi;
pub mod repo;
pub mod runner;
pub mod schemas;
pub mod storage;
pub mod text;
pub mod tree;
pub mod variables;

verus! {

} // verus!
