pub mod model;
pub mod cells;
pub mod reach;
pub mod scan;
pub mod geometry;
pub mod features;
pub mod reachability;
pub mod text;
pub mod parse;
pub mod fields;
pub mod queries;
pub mod goals;
pub mod nearest;
pub mod heuristics;
pub mod novelty;
pub mod actions;
pub mod tokens;
pub mod constraints;
pub mod minimum;
pub mod rectangle;
pub mod lure;
pub mod goal_terms;
pub mod goal_scores;
pub mod goal_progress;
pub mod open_list;
pub mod search_tree;
pub mod plain_search;
pub mod lookup_search;
pub mod keys;
pub mod beam;
pub mod chain;
pub mod branch_search;
pub mod placements;
pub mod event_keys;
pub mod facts;
pub mod pocket;
pub mod guided;
pub mod event_search;
pub mod lure_search;
pub mod beam_search;
pub mod novelty_search;
pub mod segment_search;
pub mod event_select;
pub mod event_kind;
pub mod event_successors;
pub mod bucket_keys;
pub mod fess_select;
pub mod segment_branches;
pub mod macro_search;
pub mod fess_run;
pub mod route_beam;
pub mod components;
pub mod chain_search;
pub mod detour_search;
pub mod walk_chain;
pub mod waypoint_run;
