//! Crew-membership admission for a mission board.
//!
//! Chiefs post missions with a crew-size limit and brawlers ask to join them
//! as crew. This crate decides whether a join or a leave is legal and keeps
//! the board's invariants: a mission never holds more crew than its limit,
//! a brawler holds at most one membership per mission, a chief never crews
//! their own mission, and membership only changes while a mission is open.

mod board;
mod image;
mod laws;
mod model;
mod profile;
mod status;
mod store;
mod upload;
mod use_case;

pub use board::{CrewBoard, PostError};
pub use image::{
    base64_standard_decode, data_url_image, decode_data_url, has_run, header_format, jpeg_mark, jpg_mark,
    png_mark, sole_comma_at, DecodedImage, ImageError, ImageFormat, COMMA,
};
pub use laws::{
    board_after_joins, join_run, lemma_chief_cannot_join, lemma_closed_mission_not_leavable,
    lemma_join_leave_join, lemma_join_preserves_inv, lemma_join_run_len, lemma_joins_within_capacity,
    lemma_leave_preserves_inv, lemma_one_success_per_brawler, lemma_second_join_rejected, successes,
};
pub use model::{after_join, after_leave, board_inv, join_result, leave_result, mission_inv, MissionState};
pub use profile::ProfileStats;
pub use status::{JoinError, LeaveError, MissionStatus};
pub use store::{
    after_delete, after_insert, delete_result, insert_result, lemma_insert_agrees_with_join,
    lemma_insert_preserves_inv, snapshot_of, CrewStore, DeleteError, InsertError, MissionSnapshot,
    StorageUnavailable,
};
pub use upload::{
    form_builder, is_configured, joined_params, opt_param, opt_text, pairs_text, param_text, sha1_hex,
    sign, signature_payload, signed_param_list, signed_params, upload_url, UploadImageOptions,
};
pub use use_case::CrewOperationUseCase;
