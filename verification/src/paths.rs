//! Where the engine executable is looked for by default.
use vstd::prelude::*;
use std::path::PathBuf;

verus! {

#[verifier::external_type_specification]
#[verifier::external_body]
pub struct ExPathBuf(PathBuf);

/// The path that `PathBuf::from` makes of a text.
pub uninterp spec fn path_from_text(text: Seq<char>) -> PathBuf;

/// `PathBuf::from` of a string slice: the path that the text names.
#[verifier::external_body]
fn path_buf_from(text: &str) -> (p: PathBuf)
    ensures
        p == path_from_text(text@),
{
    PathBuf::from(text)
}

/// `std::path::is_separator` of a backslash: whether the platform's paths
/// accept backslashes as separators, as on Windows (and on the few other
/// targets whose paths do). Nothing is stated, since it depends on the
/// platform.
#[verifier::external_body]
fn backslash_separates_paths() -> (r: bool) {
    std::path::is_separator('\\')
}

/// The default location of the engine: `stockfish/stockfish.exe` on Windows,
/// `stockfish/stockfish` elsewhere.
pub open spec fn stockfish_path_text(windows: bool) -> Seq<char> {
    if windows {
        "stockfish/stockfish.exe"@
    } else {
        "stockfish/stockfish"@
    }
}

/// The default location of the engine on Windows or elsewhere.
pub fn stockfish_path_for(windows: bool) -> (r: &'static str)
    ensures
        r@ == stockfish_path_text(windows),
{
    if windows {
        "stockfish/stockfish.exe"
    } else {
        "stockfish/stockfish"
    }
}

/// The default location of the engine executable on this platform: the
/// Windows name where paths take backslashes.
pub fn default_stockfish_path() -> (p: PathBuf)
    ensures
        p == path_from_text(stockfish_path_text(true)) || p == path_from_text(
            stockfish_path_text(false),
        ),
{
    let windows = backslash_separates_paths();
    path_buf_from(stockfish_path_for(windows))
}

} // verus!
