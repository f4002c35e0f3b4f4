pub mod chars;
pub mod strutil;
pub mod tokens;
pub mod context;
pub mod titlecase;
pub mod text;
pub mod name;
pub mod synonyms;
pub mod linker;
pub mod filter;
pub mod country;
pub mod replace;
pub mod laws;

pub use chars::diacritics;
pub use replace::{expand_str, find_cap_ref, is_valid_cap, replace_all, CaptureRef};
pub use filter::{conditional_highway, default_highway, filter, pref_surface, reject_surface};
pub use context::{Context, InputContext};
pub use country::Country;
pub use linker::{linker, Link, LinkResult};
pub use name::{InputName, Name, Names, Source};
pub use text::{
    distance, is_drivethrough, is_numbered, is_routish, is_undesireable, str_remove_octo,
};
pub use titlecase::{capitalize, normalize_cardinals, titlecase};
pub use tokens::{tokenize, tokenize_name, type_us_st, ParsedToken, TokenType, Tokenized, Tokens};
pub use synonyms::{
    syn_ca_french, syn_ca_hwy, syn_number_suffix, syn_ny_beach, syn_state_hwy, syn_us_cr,
    syn_us_famous, syn_us_hwy, syn_written_numeric,
};
