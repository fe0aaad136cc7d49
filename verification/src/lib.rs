#![allow(unused_imports)]
pub mod assoc;
pub mod bytes;
pub mod config;
pub mod control;
pub mod ext;
pub mod framer;
pub mod kmp;
pub mod manscdp;
pub mod handler;
pub mod headerval;
pub mod sdp;
pub mod sipmsg;
pub mod store;
pub mod strutil;

use vstd::prelude::*;

verus! {

} // verus!
