//! Verified core of a multi-connection download manager: the queue, resume
//! bookkeeping, the download and stream-pipeline decisions, and the helpers
//! that name files and print sizes and times.
pub mod art;
pub mod cli;
pub mod download;
pub mod error;
pub mod media;
pub mod progress;
pub mod queue;
pub mod resume;
pub mod sys;
pub mod text;
pub mod tui;
pub mod util;

pub use download::DownloadOptions;
pub use error::{JunkError, Result};
pub use media::{
    find_ffmpeg, find_yt_dlp, looks_like_stream_host, should_use_media, MediaJob, MediaMode,
    ResolvedMedia, StreamKind, StreamPart, DEFAULT_QUALITY,
};
pub use progress::Phase;
pub use queue::{DownloadQueue, Job, JobStatus};
pub use resume::{part_path, split_segments, state_path, ResumeState, SegmentState};
pub use util::{
    distrohopper_line, filename_from_url, format_eta, human_bytes, sanitize_filename, unique_path,
};
