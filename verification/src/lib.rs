//! The core of Shuffle, a keyboard-driven file manager: everything that decides,
//! ranks, parses, edits or lays out, as plain data with proved contracts.

pub mod appearance;
pub mod blocks;
pub mod browse;
pub mod browse_laws;
pub mod choice_laws;
pub mod choices;
pub mod dates;
pub mod editing;
pub mod field;
pub mod file_laws;
pub mod fileops;
pub mod find;
pub mod icons;
pub mod index;
pub mod inspector;
pub mod install;
pub mod keymap;
pub mod kinds;
pub mod listing;
pub mod look_laws;
pub mod menus;
pub mod order_laws;
pub mod palette;
pub mod palette_keys;
pub mod palette_laws;
pub mod pane_laws;
pub mod panels;
pub mod path_laws;
pub mod paths;
pub mod persist;
pub mod places;
pub mod prefs;
pub mod rounding;
pub mod scene_laws;
pub mod scenes;
pub mod score;
pub mod search_laws;
pub mod settings;
pub mod shuffle;
pub mod side_laws;
pub mod sidebar;
pub mod size_laws;
pub mod sorting;
pub mod startup;
pub mod tabs;
pub mod terminal;
pub mod text;
pub mod text_laws;
pub mod theme;
pub mod update;
pub mod update_laws;
pub mod view_laws;
pub mod window_laws;
pub mod workspace;
