//! Symbolic base-directory tokens that may lead the path of a disk backend.

use vstd::prelude::*;
use vstd::string::StrSliceExecFns;

use crate::filesystem::FsError;
use crate::path::{join, join_from, parse_path, segments, segs_view, valid_text};

verus! {

/// Stands for the home directory.
pub const HOME_DIR: &'static str = "$home";

/// Stands for the user's data directory.
pub const DATA_HOME_DIR: &'static str = "$data_home";

/// Stands for the user's configuration directory.
pub const CONFIG_HOME_DIR: &'static str = "$config_home";

/// Stands for the user's cache directory.
pub const CACHE_HOME_DIR: &'static str = "$cache_home";

/// Stands for the first system data directory.
pub const DATA_DIR: &'static str = "$data";

/// Stands for the first system configuration directory.
pub const CONFIG_DIR: &'static str = "$config";

/// A base directory that a token stands for.
#[derive(Clone, Copy, Debug, PartialEq, Eq, Structural)]
pub enum BaseDir {
    Home,
    DataHome,
    ConfigHome,
    CacheHome,
    Data,
    Config,
}

/// The base directory that the segment `seg` names, if it is a token.
pub open spec fn token_dir(seg: Seq<char>) -> Option<BaseDir> {
    if seg == "$home"@ {
        Some(BaseDir::Home)
    } else if seg == "$data_home"@ {
        Some(BaseDir::DataHome)
    } else if seg == "$config_home"@ {
        Some(BaseDir::ConfigHome)
    } else if seg == "$cache_home"@ {
        Some(BaseDir::CacheHome)
    } else if seg == "$data"@ {
        Some(BaseDir::Data)
    } else if seg == "$config"@ {
        Some(BaseDir::Config)
    } else {
        None
    }
}

/// Where a disk backend's base path leads, before the disk is asked.
#[derive(Clone, Debug, PartialEq, Eq)]
pub enum BaseLocation {
    /// Below the base directory `dir`, at `rest`.
    Under { dir: BaseDir, rest: String },
    /// At `path`, taken as it stands.
    Plain { path: String },
}

fn text_is(s: &String, lit: &str) -> (r: bool)
    ensures
        r == (s@ == lit@),
{
    let t = s.as_str();
    let n = t.unicode_len();
    if n != lit.unicode_len() {
        return false;
    }
    let mut i: usize = 0;
    while i < n
        invariant
            t@ == s@,
            n == s@.len(),
            n == lit@.len(),
            i <= n,
            s@.subrange(0, i as int) =~= lit@.subrange(0, i as int),
        decreases n - i,
    {
        if t.get_char(i) != lit.get_char(i) {
            assert(s@[i as int] != lit@[i as int]);
            return false;
        }
        i = i + 1;
    }
    assert(s@ =~= s@.subrange(0, n as int));
    assert(lit@ =~= lit@.subrange(0, n as int));
    true
}

fn token_of(seg: &String) -> (r: Option<BaseDir>)
    ensures
        r == token_dir(seg@),
{
    if text_is(seg, HOME_DIR) {
        Some(BaseDir::Home)
    } else if text_is(seg, DATA_HOME_DIR) {
        Some(BaseDir::DataHome)
    } else if text_is(seg, CONFIG_HOME_DIR) {
        Some(BaseDir::ConfigHome)
    } else if text_is(seg, CACHE_HOME_DIR) {
        Some(BaseDir::CacheHome)
    } else if text_is(seg, DATA_DIR) {
        Some(BaseDir::Data)
    } else if text_is(seg, CONFIG_DIR) {
        Some(BaseDir::Config)
    } else {
        None
    }
}

/// Splits the base path of a disk backend at its leading token. A malformed
/// path, and a leading segment that starts with `$` but is no token, fail
/// with `InvalidInput`.
pub fn locate_base(path: &str) -> (r: Result<BaseLocation, FsError>)
    ensures
        !valid_text(path@) ==> r == Err::<BaseLocation, FsError>(FsError::InvalidInput),
        valid_text(path@) ==> ({
            let segs = segments(path@);
            if segs.len() > 0 && token_dir(segs[0]) is Some {
                r matches Ok(BaseLocation::Under { dir, rest }) && dir == token_dir(segs[0])->0
                    && rest@ == join(segs.drop_first())
            } else if segs.len() > 0 && segs[0].len() > 0 && segs[0][0] == '$' {
                r == Err::<BaseLocation, FsError>(FsError::InvalidInput)
            } else {
                r matches Ok(BaseLocation::Plain { path: p }) && p@ == join(segs)
            }
        }),
{
    proof {
        reveal_strlit("$home");
        reveal_strlit("$data_home");
        reveal_strlit("$config_home");
        reveal_strlit("$cache_home");
        reveal_strlit("$data");
        reveal_strlit("$config");
    }
    let p = match parse_path(path) {
        None => return Err(FsError::InvalidInput),
        Some(p) => p,
    };
    let ghost segs = segs_view(p@);
    assert(segs.subrange(0, segs.len() as int) =~= segs);
    if p.len() > 0 {
        assert(segs.subrange(1, segs.len() as int) =~= segs.drop_first());
        match token_of(&p[0]) {
            Some(dir) => {
                return Ok(BaseLocation::Under { dir, rest: join_from(&p, 1) });
            },
            None => {
                let first = p[0].as_str();
                if first.unicode_len() > 0 && first.get_char(0) == '$' {
                    return Err(FsError::InvalidInput);
                }
            },
        }
    }
    Ok(BaseLocation::Plain { path: join_from(&p, 0) })
}

} // verus!
