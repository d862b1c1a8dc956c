//! Keeps a tree of interactive notebooks (`.ipynb`) in sync with plain-script
//! counterparts (`.py`) stored in hidden `.nb` sibling directories.
//!
//! The library holds the verified core: the bidirectional path mapping that
//! derives each destination path from a source path and a direction, the
//! discovery step that turns an enumerated file tree into conversion
//! directives, and the orchestration rules that plan directory creation and
//! converter invocation and classify per-directive failures. Filesystem
//! traversal, directory creation and the external converter process live
//! outside the library and exchange plain values with it.

pub mod mapper;
pub mod orchestrator;
pub mod paths;
