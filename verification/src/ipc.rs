//! IPC wire protocol between hecate-lampad agents and helpers.

pub mod error;
pub mod frame;
pub mod meaning;
pub mod platform;
pub mod token;
pub mod token_file;
pub mod token_path;
pub mod token_path_laws;

pub use error::{map_remote_error, DesktopIpcError, IpcErrorBody};
pub use frame::{check_frame_lens, encode_frame, FrameReader, FrameStep, MAX_HEADER_LEN, MAX_PAYLOAD_LEN};
pub use platform::{
    default_socket_path, helper_binary_candidates, helper_package_installed, Platform,
    IPC_GROUP_NAME,
};
pub use token::{
    auth_token_ok, generate_ipc_token, ipc_token_of, new_request_id, read_ipc_token, request_id_of,
};
pub use token_file::{
    begin_socket_permissions, begin_token_write, ipc_group_change, FileAction, GroupChange,
};
pub use token_path::ipc_token_path;
