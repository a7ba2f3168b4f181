//! The decisions of a protected virtual machine host, verified.
//!
//! Each module holds the rules of one part of the host: how guest memory is split and handed
//! over, how media buffers are booked, checked and filled, how codec and camera sessions advance,
//! how frames are framed and who is sent them. System calls, sockets and threads stay with the
//! caller; a module here says what to do next, and takes what came of it as an argument.
pub mod mthp;
pub mod bytes;
pub mod underrun;
pub mod rm;
pub mod shim;
pub mod kill;
pub mod errno;
pub mod guest_mem;
pub mod guest_buf;
pub mod pool;
pub mod text;
pub mod codec;
pub mod decoder;
pub mod encoder;
pub mod encode_session;
pub mod camera_frame;
pub mod camera;
pub mod camera_control;
pub mod camera_stream;
pub mod vnc_channel;
pub mod vnc_h264;
pub mod vnc_display;
pub mod media_backend;
pub mod share_probe;
pub mod gunyah_dt;
pub mod gunyah;
