//! Apex: the logic of a tiling editor's client and of its command line.
//!
//! Everything here is a function of plain values.  The windows, the event
//! loop, the connections and the files are in the program around it.

pub mod argv;
pub mod asks;
pub mod attention;
pub mod cli;
pub mod commands;
pub mod contrast;
pub mod cursor;
pub mod dispatch;
pub mod drag;
pub mod ends;
pub mod errands;
pub mod exec;
pub mod field;
pub mod finder;
pub mod fixed;
pub mod flags;
pub mod frame;
pub mod fuzzy;
pub mod going;
pub mod handle;
pub mod hosts;
pub mod hues;
pub mod ids;
pub mod keys;
pub mod launch;
pub mod layout;
pub mod lines;
pub mod link;
pub mod markdown;
pub mod menu;
pub mod menus;
pub mod mouse;
pub mod num;
pub mod opening;
pub mod page;
pub mod parking;
pub mod picker;
pub mod plane;
pub mod pool;
pub mod recall;
pub mod recent;
pub mod release;
pub mod rows;
pub mod rules;
pub mod scroll;
pub mod selector;
pub mod session;
pub mod switcher;
pub mod tabbed;
pub mod table;
pub mod tabs;
pub mod term;
pub mod text;
pub mod textkeys;
pub mod theme;
pub mod warp;
pub mod words;
