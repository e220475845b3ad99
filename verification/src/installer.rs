//! The decisions of installing Caddy: where the binary goes, where Go puts
//! its tools, and what the binaries are called.  The commands and file
//! operations themselves are run by the caller.
use vstd::prelude::*;
use vstd::string::StringExecFns;
use crate::paths::{join, joined_path, path_starts_with, same_path, path_has_prefix, paths_equal};
use crate::text::{
    chars_of, string_of, trim, trim_chars, starts_with, starts_with_str, equals_str, slice_chars,
    contains, find_str, lemma_find_from,
};

verus! {

/// Where to install Caddy (`None`: choose a directory).
#[derive(Clone, Debug, PartialEq, Eq)]
pub struct InstallOptions {
    pub bin_dir: Option<String>,
}

impl Default for InstallOptions {
    fn default() -> (o: Self)
        ensures
            o.bin_dir is None,
    {
        InstallOptions { bin_dir: None }
    }
}

/// Where Caddy was installed, and whether that directory is on `PATH`.
#[derive(Clone, Debug, PartialEq, Eq)]
pub struct InstallReport {
    pub caddy_path: String,
    pub path_contains_bin_dir: bool,
}

/// Why a directory for the installation cannot be settled.
#[derive(Clone, Debug, PartialEq, Eq)]
pub enum InstallError {
    /// A path starts with `~` but `HOME` is not set.
    HomeNotSet,
    /// No writable directory on `PATH` and `HOME` is not set.
    NoBinDir,
    /// Go names no binary directory and `HOME` is not set.
    NoGoBinDir,
    /// The directory is not writable by the current user.
    NotWritable(String),
}

/// The message that describes an installation error.
pub open spec fn install_error_text(e: InstallError) -> Seq<char> {
    match e {
        InstallError::HomeNotSet => "HOME is not set"@,
        InstallError::NoBinDir => "could not find a writable PATH directory and HOME is not set"@,
        InstallError::NoGoBinDir => "could not determine Go binary directory"@,
        InstallError::NotWritable(p) => p@ + " is not writable by the current user"@,
    }
}

impl InstallError {
    /// The message that describes the error.
    pub fn message(&self) -> (m: String)
        ensures
            m@ == install_error_text(*self),
    {
        match self {
            InstallError::HomeNotSet => String::from_str("HOME is not set"),
            InstallError::NoBinDir => String::from_str(
                "could not find a writable PATH directory and HOME is not set",
            ),
            InstallError::NoGoBinDir => String::from_str("could not determine Go binary directory"),
            InstallError::NotWritable(p) => {
                let mut m = p.clone();
                m.append(" is not writable by the current user");
                m
            },
        }
    }
}

pub open spec fn opt_view(o: Option<String>) -> Option<Seq<char>> {
    match o {
        Some(s) => Some(s@),
        None => None,
    }
}

/// What `expand_home` gives: `~` is the home directory, `~/rest` is `rest`
/// inside it, and any other path stays as it is.
pub open spec fn expanded(path: Seq<char>, home: Option<Seq<char>>) -> Option<Seq<char>> {
    if path == "~"@ {
        home
    } else if starts_with(path, "~/"@) {
        match home {
            Some(h) => Some(joined_path(h, path.skip(2))),
            None => None,
        }
    } else {
        Some(path)
    }
}

/// `path` with a leading `~` replaced by the home directory `home`.
pub fn expand_home(path: String, home: Option<String>) -> (r: Result<String, InstallError>)
    ensures
        match r {
            Ok(p) => expanded(path@, opt_view(home)) == Some(p@),
            Err(e) => expanded(path@, opt_view(home)) is None && e == InstallError::HomeNotSet,
        },
{
    let v = chars_of(path.as_str());
    if equals_str(&v, "~") {
        return match home {
            Some(h) => Ok(h),
            None => Err(InstallError::HomeNotSet),
        };
    }
    if starts_with_str(&v, "~/") {
        proof {
            reveal_strlit("~/");
            reveal_strlit("~");
        }
        let rest_chars = slice_chars(&v, 2, v.len());
        let rest = string_of(&rest_chars, 0, rest_chars.len());
        assert(rest_chars@.subrange(0, rest_chars@.len() as int) =~= rest_chars@);
        assert(rest@ =~= path@.skip(2));
        return match home {
            Some(h) => Ok(join(h.as_str(), rest.as_str())),
            None => Err(InstallError::HomeNotSet),
        };
    }
    Ok(path)
}

/// `value` without surrounding whitespace, as a string.
fn trimmed(value: &str) -> (r: String)
    ensures
        r@ == trim(value@),
{
    let v = chars_of(value);
    let t = trim_chars(&v);
    assert(t@.subrange(0, t@.len() as int) =~= t@);
    string_of(&t, 0, t.len())
}

/// Where `go install` puts binaries: `GOBIN` if set, else `bin` under
/// `GOPATH` if set, else `go/bin` under the home directory.
pub open spec fn go_bin(gobin: Seq<char>, gopath: Seq<char>, home: Option<Seq<char>>) -> Option<Seq<char>> {
    if trim(gobin).len() > 0 {
        Some(trim(gobin))
    } else if trim(gopath).len() > 0 {
        Some(joined_path(trim(gopath), "bin"@))
    } else {
        match home {
            Some(h) => Some(joined_path(joined_path(h, "go"@), "bin"@)),
            None => None,
        }
    }
}

/// The directory where `go install` puts binaries, given the values of
/// `go env GOBIN`, `go env GOPATH` and `HOME`.
pub fn go_bin_dir(gobin: &str, gopath: &str, home: Option<String>) -> (r: Result<String, InstallError>)
    ensures
        match r {
            Ok(p) => go_bin(gobin@, gopath@, opt_view(home)) == Some(p@),
            Err(e) => go_bin(gobin@, gopath@, opt_view(home)) is None && e == InstallError::NoGoBinDir,
        },
{
    let gb = trimmed(gobin);
    if gb.as_str().unicode_len() > 0 {
        return Ok(gb);
    }
    let gp = trimmed(gopath);
    if gp.as_str().unicode_len() > 0 {
        return Ok(join(gp.as_str(), "bin"));
    }
    match home {
        Some(h) => {
            let go = join(h.as_str(), "go");
            Ok(join(go.as_str(), "bin"))
        },
        None => Err(InstallError::NoGoBinDir),
    }
}

/// The file name of the executable `name`: `name.exe` on Windows.
pub fn binary_name(name: &str, windows: bool) -> (r: String)
    ensures
        r@ == if windows {
            name@ + ".exe"@
        } else {
            name@
        },
{
    let mut r = String::from_str(name);
    if windows {
        r.append(".exe");
    }
    r
}

/// Succeeds when the directory is writable.
pub fn ensure_writable_dir(path: &str, writable: bool) -> (r: Result<(), InstallError>)
    ensures
        match r {
            Ok(()) => writable,
            Err(e) => !writable && (e matches InstallError::NotWritable(p) && p@ == path@),
        },
{
    if writable {
        Ok(())
    } else {
        Err(InstallError::NotWritable(String::from_str(path)))
    }
}

/// A directory is the user's when it lies under the home directory.
pub open spec fn user_owned(path: Seq<char>, home: Option<Seq<char>>) -> bool {
    match home {
        Some(h) => path_starts_with(path, h),
        None => false,
    }
}

/// Whether `path` lies under the home directory `home`.
pub fn is_user_owned_path(path: &str, home: &Option<String>) -> (r: bool)
    ensures
        r == user_owned(path@, opt_view(*home)),
{
    match home {
        Some(h) => path_has_prefix(path, h.as_str()),
        None => false,
    }
}

pub open spec fn strings_view(v: Seq<String>) -> Seq<Seq<char>> {
    Seq::new(v.len(), |i: int| v[i]@)
}

/// Whether the `i`th directory of `PATH` can take the installation: it is
/// the user's and was found to exist and be writable (`usable[i]`; an entry
/// that `usable` lacks counts as not usable).
pub open spec fn usable_dir(
    dirs: Seq<Seq<char>>,
    home: Option<Seq<char>>,
    usable: Seq<bool>,
    i: int,
) -> bool {
    &&& user_owned(dirs[i], home)
    &&& i < usable.len()
    &&& usable[i]
}

/// The first directory of `dirs`, from the `i`th on, that can take the
/// installation.
pub open spec fn first_usable_from(
    dirs: Seq<Seq<char>>,
    home: Option<Seq<char>>,
    usable: Seq<bool>,
    i: int,
) -> Option<Seq<char>>
    decreases dirs.len() - i,
{
    if i >= dirs.len() {
        None
    } else if usable_dir(dirs, home, usable, i) {
        Some(dirs[i])
    } else {
        first_usable_from(dirs, home, usable, i + 1)
    }
}

/// The first directory of `PATH` that can take the installation.
pub open spec fn first_usable(
    dirs: Seq<Seq<char>>,
    home: Option<Seq<char>>,
    usable: Seq<bool>,
) -> Option<Seq<char>> {
    first_usable_from(dirs, home, usable, 0)
}

/// The first of the user's `PATH` directories that exists and is writable,
/// given for each directory whether it exists and is writable.
pub fn writable_path_dir(dirs: &Vec<String>, home: &Option<String>, usable: &Vec<bool>) -> (r:
    Option<String>)
    ensures
        opt_view(r) == first_usable(strings_view(dirs@), opt_view(*home), usable@),
{
    let n = dirs.len();
    let ghost ds = strings_view(dirs@);
    let mut i: usize = 0;
    while i < n
        invariant
            0 <= i <= n == dirs.len(),
            ds == strings_view(dirs@),
            first_usable_from(ds, opt_view(*home), usable@, 0) == first_usable_from(
                ds,
                opt_view(*home),
                usable@,
                i as int,
            ),
        decreases n - i,
    {
        assert(ds[i as int] == dirs@[i as int]@);
        if is_user_owned_path(dirs[i].as_str(), home) && i < usable.len() && usable[i] {
            return Some(dirs[i].clone());
        }
        i = i + 1;
    }
    None
}

/// Where to install when no directory is given: the first writable
/// directory of the user's on `PATH`, else `.local/bin` under the home
/// directory.
pub open spec fn default_bin(
    dirs: Seq<Seq<char>>,
    home: Option<Seq<char>>,
    usable: Seq<bool>,
) -> Option<Seq<char>> {
    match first_usable(dirs, home, usable) {
        Some(w) => Some(w),
        None => match home {
            Some(h) => Some(joined_path(joined_path(h, ".local"@), "bin"@)),
            None => None,
        },
    }
}

/// The install directory when none is given, from the `PATH` directories,
/// `HOME`, and for each directory whether it exists and is writable.
pub fn default_bin_dir(dirs: &Vec<String>, home: &Option<String>, usable: &Vec<bool>) -> (r:
    Result<String, InstallError>)
    ensures
        match r {
            Ok(p) => default_bin(strings_view(dirs@), opt_view(*home), usable@) == Some(p@),
            Err(e) => default_bin(strings_view(dirs@), opt_view(*home), usable@) is None && e
                == InstallError::NoBinDir,
        },
{
    match writable_path_dir(dirs, home, usable) {
        Some(w) => Ok(w),
        None => match home {
            Some(h) => {
                let local = join(h.as_str(), ".local");
                Ok(join(local.as_str(), "bin"))
            },
            None => Err(InstallError::NoBinDir),
        },
    }
}

/// Whether `dir` is one of the directories on `PATH`.
pub fn path_contains_dir(dirs: &Vec<String>, dir: &str) -> (r: bool)
    ensures
        r == exists|i: int| 0 <= i < dirs.len() && same_path(#[trigger] dirs@[i]@, dir@),
{
    let n = dirs.len();
    let mut i: usize = 0;
    while i < n
        invariant
            0 <= i <= n == dirs.len(),
            forall|j: int| 0 <= j < i ==> !same_path(#[trigger] dirs@[j]@, dir@),
        decreases n - i,
    {
        if paths_equal(dirs[i].as_str(), dir) {
            return true;
        }
        i = i + 1;
    }
    false
}

/// Whether the module listing of a Caddy binary (`caddy list-modules`)
/// names the rate-limit handler `http.handlers.rate_limit`.
pub fn has_rate_limit_module(listing: &str) -> (r: bool)
    ensures
        r == contains(listing@, "http.handlers.rate_limit"@),
{
    let v = chars_of(listing);
    let found = find_str(&v, "http.handlers.rate_limit", 0);
    proof {
        lemma_find_from(v@, "http.handlers.rate_limit"@, 0);
    }
    found.is_some()
}

} // verus!
