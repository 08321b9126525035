/// A stack machine and its assembly reader.
pub mod assembly;
/// A document in a rope, with a cursor and its editing operations.
pub mod buffer;
/// Editor command lines (`w`, `q!`, `e path`, ...).
pub mod commands;
/// Console lines and session events.
pub mod console;
/// Line ending normalization for loaded text.
pub mod fs_io;
/// Tiles: a split tree and the tabs tiles show.
pub mod layout;
/// A small markup reader.
pub mod markup;
/// Modes and keys: what each key does to a session.
pub mod modal;
/// Terminal cell widths, cell slicing and the status line.
pub mod render;
/// Drawing steps for session events.
pub mod renderer;
/// Session snapshots as JSON.
pub mod session;
/// The rope behind a buffer.
pub mod store;
/// String building, trimming, splitting and number reading.
pub mod strings;
/// Tabs and their titles.
pub mod tabs;
/// Lines of a text, as a mathematical model.
pub mod text;
/// Scrolling the view to follow the cursor.
pub mod viewport;
