//! A shared reference instant, seen by many temporal systems: conversion of instants between
//! encodings, rules that map an instant into a system's own local time, and the registry, triggers,
//! wake events and access rules built on top of them.
pub mod api;
pub mod background;
pub mod calendar;
pub mod clock;
pub mod commands;
pub mod delivery;
pub mod encoding;
pub mod engine;
pub mod error;
pub mod fraction;
pub mod history;
pub mod instant;
pub mod json;
pub mod natural;
pub mod number;
pub mod numeral;
pub mod observer;
pub mod rounding;
pub mod store;
pub mod system;
pub mod text;
pub mod timescale;
pub mod tools;
