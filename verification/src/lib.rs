//! Verified logic of a Go-flavoured runtime: the operating-system layer, the
//! goroutine scheduler's data structures, the network poller, the timer heap,
//! signal bookkeeping and the symboliser.
#![allow(non_snake_case)]
#![allow(non_camel_case_types)]
#![allow(non_upper_case_globals)]
#![allow(unused_imports)]

use vstd::prelude::*;

pub mod cputicks;
pub mod dir;
pub mod dirfs;
pub mod dwarf_util;
pub mod errors;
pub mod exec_posix;
pub mod file;
pub mod fileinfo;
pub mod flags;
pub mod gobuf;
pub mod gobuf_arm64;
pub mod gostr;
pub mod grow;
pub mod line;
pub mod m;
pub mod macho;
pub mod memory;
pub mod netpoll;
pub mod os;
pub mod p;
pub mod preempt;
pub mod rand;
pub mod readfile;
pub mod rt_section;
pub mod sample;
pub mod segv;
pub mod sigctx;
pub mod signal;
pub mod sort;
pub mod spin;
pub mod stack;
pub mod steal;
pub mod symbolize;
pub mod symtab;
pub mod sys;
pub mod syscall;
pub mod sysmon;
pub mod tls;
pub mod user;
pub mod value;
