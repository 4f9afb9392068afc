//! Fingertip detection and tracking for a camera-based multi-touch surface.
//!
//! The library holds the decisions of the per-frame pipeline: which pixel
//! operations turn a frame into a foreground mask, which fitted ellipses count
//! as fingertips, how detections are associated with live tracks across
//! frames, and when the video source is rewound. The pixel work itself is done
//! by an image library around it.
pub mod detector;
pub mod playback;
pub mod preprocess;
pub mod tracker;
