//! Core of a launcher daemon: entry aggregation and ranking, usage-frequency
//! decay, favorites, and the session-control state machine.

mod apps;
mod entry;
mod favorites;
mod finder;
mod frequency;
mod launch;
mod matcher;
mod math;
mod power;
mod rank;
mod select;
mod session;
mod text;
mod wifi;

pub use apps::DesktopRecord;
pub use apps::SearchEntries;
pub use apps::is_app_entry;
pub use apps::lemma_dedup_first_seen;
pub use apps::rec_id_in;
pub use apps::spec_app_filtered;
pub use apps::spec_dedup;
pub use apps::spec_favorite_records;
pub use apps::spec_find_record;
pub use apps::spec_searchable;
pub use apps::spec_visible;
pub use entry::Entry;
pub use entry::EntryAction;
pub use entry::EntryExecuteResult;
pub use favorites::Favorites;
pub use favorites::spec_id_in;
pub use finder::Finders;
pub use finder::collected_defaults;
pub use finder::collected_filtered;
pub use finder::lemma_math_result_sorts_first;
pub use finder::lemma_second_execution_rank_no_lower;
pub use frequency::EntryFrequency;
pub use frequency::Frequencies;
pub use frequency::SECONDS_PER_DAY;
pub use frequency::SECONDS_PER_HOUR;
pub use frequency::SECONDS_PER_WEEK;
pub use frequency::lemma_decay_monotonic;
pub use frequency::lemma_second_execution_raises_score;
pub use frequency::sat_u32;
pub use frequency::spec_bumped;
pub use frequency::spec_effective_score;
pub use frequency::spec_lookup;
pub use launch::LaunchError;
pub use launch::LaunchPlan;
pub use launch::build_launch_plan;
pub use launch::spec_cwd;
pub use matcher::fuzzy_score;
pub use math::EvalOutcome;
pub use math::EvalOutcomeView;
pub use math::MathFinder;
pub use math::eval_outcome;
pub use math::explicit_expr;
pub use math::is_math_entry_for;
pub use math::is_math_error_entry;
pub use math::is_math_value_entry;
pub use math::is_supported_expr;
pub use math::lemma_explicit_query_always_answers;
pub use math::spec_math_count;
pub use power::Icon;
pub use power::PowerAction;
pub use power::PowerOptions;
pub use power::PowerQuickAccess;
pub use power::WifiQuickAccess;
pub use power::is_power_action;
pub use power::spec_asset_path;
pub use rank::RankedEntry;
pub use rank::count_preceding;
pub use rank::distinct_ranks;
pub use rank::key_le;
pub use rank::lemma_raised_score_rank_no_lower;
pub use rank::lemma_ranking_stable;
pub use rank::lemma_sort_len;
pub use rank::lemma_sort_multiset;
pub use rank::lemma_sort_sorted;
pub use rank::lemma_sorted_element_by_rank;
pub use rank::lemma_top_element;
pub use rank::precedes;
pub use rank::rank_in;
pub use rank::same_keys;
pub use rank::sort_ranked;
pub use rank::sorted;
pub use rank::spec_insert;
pub use rank::spec_sort;
pub use select::select_next;
pub use select::select_prev;
pub use session::SessionEffect;
pub use session::SessionState;
pub use session::SocketMessage;
pub use session::handle_line;
pub use session::lemma_close_idempotent;
pub use session::lemma_open_idempotent;
pub use session::lemma_toggle_involutive;
pub use session::message_token;
pub use session::parse_message;
pub use session::spec_parse_message;
pub use session::spec_step;
pub use session::step;
pub use text::contains_seq;
pub use text::contains_str;
pub use text::is_blank;
pub use text::is_space_char;
pub use text::query_is_blank;
pub use text::str_eq;
pub use wifi::WifiFinder;
pub use wifi::WifiNetwork;
pub use wifi::WifiSecurityChoice;
pub use wifi::connect_choice;
pub use wifi::is_wifi_entry;
pub use wifi::spec_wifi_filtered;
