//! A framework for music players: containers and codecs, sample formats, play queues, searching and
//! sorting of a library, and the state machines of a player.

pub mod album_grid;
pub mod args;
pub mod assembler;
pub mod browse;
pub mod cache;
pub mod cli;
pub mod conf;
pub mod config;
pub mod console;
pub mod course;
pub mod coverflow;
pub mod covers;
pub mod demux;
pub mod dirs;
pub mod display;
pub mod drive;
pub mod hires;
pub mod io;
pub mod keys;
pub mod library;
pub mod logger;
pub mod media;
pub mod messages;
pub mod metadata;
pub mod micro;
pub mod model;
pub mod mpris;
pub mod opus;
pub mod order;
pub mod path;
pub mod paths;
pub mod pcm;
pub mod player;
pub mod playlist;
pub mod plumbing;
pub mod promises;
pub mod queue;
pub mod sample;
pub mod scan;
pub mod search;
pub mod seeking;
pub mod session;
pub mod sink;
pub mod smtc;
pub mod sort;
pub mod tags;
pub mod text;
pub mod track;
pub mod update;
pub mod volume;
pub mod watcher;
pub mod wav;
pub mod wav_stream;
pub mod written;
