//! Transient survey simulation: stacking, photometry, detection cuts and run bookkeeping.
pub mod bin_laws;
pub mod binning;
pub mod combined_laws;
pub mod dispatch;
pub mod double;
pub mod exposure_laws;
pub mod matching;
pub mod matching_laws;
pub mod measurement;
pub mod noise;
pub mod number_laws;
pub mod order;
pub mod photometry;
pub mod photometry_laws;
pub mod pipeline;
pub mod refusal_laws;
pub mod report_laws;
pub mod results;
pub mod run_laws;
pub mod run_meaning;
pub mod run_repeats;
pub mod selection_laws;
pub mod setup_laws;
pub mod simulation;
pub mod simulation_laws;
pub mod source_laws;
pub mod sources;
pub mod stacking;
pub mod stacking_laws;
pub mod stacking_repeats;
pub mod survey;
pub mod text;
pub mod text_laws;
pub mod too;
pub mod view_laws;
pub mod window_laws;
pub mod windows;
