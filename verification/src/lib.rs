//! A small self-hosting macro-expansion virtual machine.
//!
//! The crate is built from four layers, each consuming the previous one:
//! a symbolic-expression parser ([`sym`]), a bit-packed instruction codec
//! ([`minst`]), a resolver that promotes parsed trees into instruction or
//! expression elements ([`element`]), and a stack-of-frames interpreter with
//! its definition table ([`machine`]).

pub mod sym;

pub mod minst;

pub mod element;

pub mod machine;
