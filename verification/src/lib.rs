//! Shared policy primitives and IPC wire protocol for Hecate lampad helpers.

pub mod ipc;
pub mod policy;
pub mod text;
pub mod text_facts;

pub use ipc::{
    auth_token_ok, begin_socket_permissions, begin_token_write, check_frame_lens, default_socket_path, encode_frame,
    generate_ipc_token, helper_binary_candidates, helper_package_installed, ipc_group_change,
    ipc_token_of, ipc_token_path, map_remote_error, new_request_id, read_ipc_token, request_id_of,
    DesktopIpcError, FileAction, FrameReader, FrameStep, GroupChange, IpcErrorBody, Platform,
    IPC_GROUP_NAME, MAX_HEADER_LEN, MAX_PAYLOAD_LEN,
};
