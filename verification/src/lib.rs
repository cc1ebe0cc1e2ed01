pub mod actions;
pub mod arrange;
pub mod backend;
pub mod clock;
pub mod commands;
pub mod config;
pub mod console;
pub mod ddcutil;
pub mod ddcutil_live;
pub mod ddcutil_parse;
pub mod desk;
pub mod desktop;
pub mod desktop_entry;
pub mod desktop_live;
pub mod digits;
pub mod document;
pub mod doctor;
pub mod edid;
pub mod edid_source;
pub mod editor;
pub mod eventlog;
pub mod fake;
pub mod hands;
pub mod hotkey;
pub mod icon;
pub mod interview;
pub mod inventory;
pub mod keyed;
pub mod layers;
pub mod legacy;
pub mod listing;
pub mod lookup;
pub mod mccs;
pub mod menu;
pub mod notice;
pub mod page;
pub mod paths;
pub mod png;
pub mod port;
pub mod powertoys;
pub mod powertoys_live;
pub mod powertoys_parse;
pub mod proc;
pub mod prompt;
pub mod resource;
pub mod runner;
pub mod seqs;
pub mod setup;
pub mod shared;
pub mod survey;
pub mod switch;
pub mod terminal;
pub mod text;
pub mod topology;
pub mod tries;
pub mod types;
pub mod window;
pub mod windows;
pub mod windows_live;
