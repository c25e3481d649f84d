pub mod text;
pub mod order;
pub mod assoc;
pub mod json;
pub mod json2nix;
pub mod keys;
pub mod diff;
pub mod tree;
pub mod values;
pub mod paths;
pub mod deps;
pub mod tree_diff;
pub mod tag_paths;
pub mod tree_edit;
pub mod browse;
pub mod browse_input;
pub mod browse_step;
pub mod show;
pub mod resolve;
pub mod panes;
pub mod checks;
pub mod results;
pub mod theme;
pub mod frame;
pub mod diff_frame;
pub mod show_frame;
pub mod cli;
