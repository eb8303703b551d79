//! Locating and checking the agent binary: the search path it is run with,
//! and what a version check reports.
use vstd::prelude::*;
use crate::text::{concat, trim, trimmed, chars_of, str_eq};

verus! {

/// `base` joined with the relative path `rest`, with one `/` between them.
pub open spec fn joined(base: Seq<char>, rest: Seq<char>) -> Seq<char> {
    if base.len() > 0 && base.last() == '/' {
        base + rest
    } else {
        base + "/"@ + rest
    }
}

/// `base` joined with the relative path `rest`.
pub fn join_path(base: &str, rest: &str) -> (r: String)
    ensures
        r@ == joined(base@, rest@),
{
    let v = chars_of(base);
    if v.len() > 0 && v[v.len() - 1] == '/' {
        concat(base, rest)
    } else {
        let left = concat(base, "/");
        let r = concat(left.as_str(), rest);
        assert(r@ =~= base@ + "/"@ + rest@);
        r
    }
}

/// `paths` followed by each entry of `extras` that is not already there,
/// in order.
pub open spec fn merged(paths: Seq<Seq<char>>, extras: Seq<Seq<char>>) -> Seq<Seq<char>>
    decreases extras.len(),
{
    if extras.len() == 0 {
        paths
    } else if paths.contains(extras[0]) {
        merged(paths, extras.drop_first())
    } else {
        merged(paths.push(extras[0]), extras.drop_first())
    }
}

pub open spec fn views(s: Seq<String>) -> Seq<Seq<char>> {
    Seq::new(s.len(), |i: int| s[i]@)
}

fn position_of(paths: &Vec<String>, p: &str) -> (r: bool)
    ensures
        r == views(paths@).contains(p@),
{
    let mut i: usize = 0;
    while i < paths.len()
        invariant
            i <= paths@.len(),
            forall|k: int| 0 <= k < i ==> paths@[k]@ != p@,
        decreases paths.len() - i,
    {
        if str_eq(paths[i].as_str(), p) {
            assert(views(paths@)[i as int] == p@);
            return true;
        }
        i = i + 1;
    }
    false
}

/// The search path: the entries of `paths`, then each extra directory that
/// is not among them yet.
pub fn merge_path_entries(paths: Vec<String>, extras: Vec<String>) -> (r: Vec<String>)
    ensures
        views(r@) == merged(views(paths@), views(extras@)),
{
    let mut out = paths;
    let mut i: usize = 0;
    assert(views(extras@).subrange(0, views(extras@).len() as int) =~= views(extras@));
    while i < extras.len()
        invariant
            i <= extras@.len(),
            merged(views(paths@), views(extras@)) == merged(views(out@), views(extras@).subrange(
                i as int,
                extras@.len() as int,
            )),
        decreases extras.len() - i,
    {
        let ghost rest = views(extras@).subrange(i as int, extras@.len() as int);
        assert(rest.drop_first() =~= views(extras@).subrange(i + 1, extras@.len() as int));
        assert(rest[0] == extras@[i as int]@);
        if !position_of(&out, extras[i].as_str()) {
            let ghost before = views(out@);
            out.push(extras[i].clone());
            assert(views(out@) =~= before.push(extras@[i as int]@));
        }
        i = i + 1;
    }
    assert(views(extras@).subrange(extras@.len() as int, extras@.len() as int) =~= Seq::<Seq<char>>::empty());
    out
}

/// The directories searched on POSIX systems besides `PATH`: the system
/// ones, then those under `home` when it is known, then the node version
/// manager's `bin` directories that exist.
pub open spec fn posix_dirs(home: Option<Seq<char>>, nvm_bins: Seq<Seq<char>>) -> Seq<Seq<char>> {
    seq!["/opt/homebrew/bin"@, "/usr/local/bin"@, "/usr/bin"@, "/bin"@, "/usr/sbin"@, "/sbin"@] + match home {
        Some(h) => seq![
            joined(h, ".local/bin"@),
            joined(h, ".local/share/mise/shims"@),
            joined(h, ".cargo/bin"@),
            joined(h, ".bun/bin"@),
        ],
        None => Seq::empty(),
    } + nvm_bins
}

/// The directories searched on POSIX systems besides `PATH`.
pub fn posix_extra_dirs(home: Option<&str>, nvm_bins: &Vec<String>) -> (r: Vec<String>)
    ensures
        views(r@) == posix_dirs(
            match home {
                Some(h) => Some(h@),
                None => None,
            },
            views(nvm_bins@),
        ),
{
    let mut out: Vec<String> = Vec::new();
    out.push("/opt/homebrew/bin".to_owned());
    out.push("/usr/local/bin".to_owned());
    out.push("/usr/bin".to_owned());
    out.push("/bin".to_owned());
    out.push("/usr/sbin".to_owned());
    out.push("/sbin".to_owned());
    if let Some(h) = home {
        out.push(join_path(h, ".local/bin"));
        out.push(join_path(h, ".local/share/mise/shims"));
        out.push(join_path(h, ".cargo/bin"));
        out.push(join_path(h, ".bun/bin"));
    }
    let ghost start = views(out@);
    proof {
        let hv = match home {
            Some(h) => Some(h@),
            None => None,
        };
        assert(start =~= posix_dirs(hv, Seq::empty()).subrange(0, start.len() as int));
    }
    let mut i: usize = 0;
    while i < nvm_bins.len()
        invariant
            i <= nvm_bins@.len(),
            views(out@) =~= start + views(nvm_bins@).subrange(0, i as int),
        decreases nvm_bins.len() - i,
    {
        let ghost before = out@;
        out.push(nvm_bins[i].clone());
        assert(views(out@) =~= views(before).push(nvm_bins@[i as int]@));
        assert(views(nvm_bins@).subrange(0, i + 1) =~= views(nvm_bins@).subrange(0, i as int).push(
            nvm_bins@[i as int]@,
        ));
        i = i + 1;
    }
    assert(views(nvm_bins@).subrange(0, nvm_bins@.len() as int) =~= views(nvm_bins@));
    out
}

/// The directories searched on Windows besides `PATH`, from the values of
/// `APPDATA`, `LOCALAPPDATA`, the user's home and `PROGRAMDATA` when set.
pub open spec fn windows_dirs(
    appdata: Option<Seq<char>>,
    local_appdata: Option<Seq<char>>,
    home: Option<Seq<char>>,
    program_data: Option<Seq<char>>,
) -> Seq<Seq<char>> {
    let a = match appdata {
        Some(a) => seq![joined(a, "npm"@)],
        None => Seq::empty(),
    };
    let l = match local_appdata {
        Some(l) => seq![joined(l, "Microsoft/WindowsApps"@)],
        None => Seq::empty(),
    };
    let h = match home {
        Some(h) => seq![joined(h, ".cargo/bin"@), joined(h, "scoop/shims"@)],
        None => Seq::empty(),
    };
    let p = match program_data {
        Some(p) => seq![joined(p, "chocolatey/bin"@)],
        None => Seq::empty(),
    };
    a + l + h + p
}

pub open spec fn opt_str(o: Option<&str>) -> Option<Seq<char>> {
    match o {
        Some(s) => Some(s@),
        None => None,
    }
}

/// The directories searched on Windows besides `PATH`.
pub fn windows_extra_dirs(
    appdata: Option<&str>,
    local_appdata: Option<&str>,
    home: Option<&str>,
    program_data: Option<&str>,
) -> (r: Vec<String>)
    ensures
        views(r@) == windows_dirs(opt_str(appdata), opt_str(local_appdata), opt_str(home), opt_str(program_data)),
{
    let mut out: Vec<String> = Vec::new();
    if let Some(a) = appdata {
        out.push(join_path(a, "npm"));
    }
    if let Some(l) = local_appdata {
        out.push(join_path(l, "Microsoft/WindowsApps"));
    }
    if let Some(h) = home {
        out.push(join_path(h, ".cargo/bin"));
        out.push(join_path(h, "scoop/shims"));
    }
    if let Some(p) = program_data {
        out.push(join_path(p, "chocolatey/bin"));
    }
    assert(views(out@) =~= windows_dirs(opt_str(appdata), opt_str(local_appdata), opt_str(home), opt_str(program_data)));
    out
}

/// The agent binary to run: the configured one when it is not blank, else `codex`.
pub fn resolve_codex_bin(codex_bin: Option<String>) -> (r: String)
    ensures
        r@ == match codex_bin {
            Some(b) if trimmed(b@).len() > 0 => b@,
            _ => "codex"@,
        },
{
    match codex_bin {
        Some(b) => {
            if trim(b.as_str()).as_str().is_empty() {
                "codex".to_owned()
            } else {
                b
            }
        },
        None => "codex".to_owned(),
    }
}

/// The message when no agent binary is found.
pub fn installation_not_found_message() -> (r: String)
    ensures
        r@ == "Codex CLI not found. Install Codex and ensure `codex` is on your PATH."@,
{
    "Codex CLI not found. Install Codex and ensure `codex` is on your PATH.".to_owned()
}

/// The message when the version check does not finish in time.
pub fn installation_timeout_message() -> (r: String)
    ensures
        r@ == "Timed out while checking Codex CLI. Make sure `codex --version` runs in Terminal."@,
{
    "Timed out while checking Codex CLI. Make sure `codex --version` runs in Terminal.".to_owned()
}

/// The message when the child does not answer `initialize` in time.
pub fn initialize_timeout_message() -> (r: String)
    ensures
        r@ == "Codex app-server did not respond to initialize. Check that `codex app-server` works in Terminal."@,
{
    "Codex app-server did not respond to initialize. Check that `codex app-server` works in Terminal.".to_owned()
}

/// What a finished version check reports: on success the trimmed version,
/// none when blank; on failure an error with the trimmed error output, or
/// else the trimmed standard output, when either has text.
pub open spec fn installation_outcome(success: bool, stdout: Seq<char>, stderr: Seq<char>) -> Result<
    Option<Seq<char>>,
    Seq<char>,
> {
    if success {
        if trimmed(stdout).len() == 0 {
            Ok(None)
        } else {
            Ok(Some(trimmed(stdout)))
        }
    } else {
        let detail = if trimmed(stderr).len() == 0 {
            trimmed(stdout)
        } else {
            trimmed(stderr)
        };
        if detail.len() == 0 {
            Err("Codex CLI failed to start. Try running `codex --version` in Terminal."@)
        } else {
            Err("Codex CLI failed to start: "@ + detail + ". Try running `codex --version` in Terminal."@)
        }
    }
}

/// What a finished version check reports.
pub fn check_installation_outcome(success: bool, stdout: &str, stderr: &str) -> (r: Result<
    Option<String>,
    String,
>)
    ensures
        match (r, installation_outcome(success, stdout@, stderr@)) {
            (Ok(None), Ok(None)) => true,
            (Ok(Some(v)), Ok(Some(w))) => v@ == w,
            (Err(e), Err(f)) => e@ == f,
            _ => false,
        },
{
    if success {
        let version = trim(stdout);
        if version.as_str().is_empty() {
            return Ok(None);
        }
        return Ok(Some(version));
    }
    let err = trim(stderr);
    let detail = if err.as_str().is_empty() {
        trim(stdout)
    } else {
        err
    };
    if detail.as_str().is_empty() {
        return Err("Codex CLI failed to start. Try running `codex --version` in Terminal.".to_owned());
    }
    let left = concat("Codex CLI failed to start: ", detail.as_str());
    Err(concat(left.as_str(), ". Try running `codex --version` in Terminal."))
}

} // verus!
