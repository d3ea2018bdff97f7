//! The configuration: rules that map a host and a repository path to a key, and the
//! paths derived from the home directory.
use vstd::prelude::*;

use crate::text::{chars_of, starts_with, string_of};

verus! {

/// The whole configuration file.
pub struct Config {
    /// On macOS, let ssh look up key passphrases in the keychain.
    pub apple_keychain: bool,
    /// The rules, in the order they are tried.
    pub rules: Vec<Rule>,
}

/// One rule: which key to use for a host and (optionally) a glob over the repository path.
pub struct Rule {
    /// Exact SSH hostname.
    pub host: String,
    /// Glob over the path after the host; `None` matches any path on the host.
    pub match_pattern: Option<String>,
    /// Path of the private key (`~` is expanded).
    pub key: String,
    /// `user.email` written to the repository after an operation.
    pub email: Option<String>,
    /// `user.name` written to the repository after an operation.
    pub name: Option<String>,
    /// Optional SSH port override (e.g. 222 for non-standard SSH).
    pub port: Option<u16>,
    /// If true, `pickey init` may overwrite this rule when regenerating.
    pub auto: bool,
}

/// `base` joined with `rest` as `PathBuf::push` does on Unix: an absolute `rest` replaces
/// `base`, otherwise a `/` separates them unless `base` is empty or already ends with one.
pub open spec fn path_join(base: Seq<char>, rest: Seq<char>) -> Seq<char> {
    if rest.len() > 0 && rest[0] == '/' {
        rest
    } else if base.len() == 0 || base.last() == '/' {
        base + rest
    } else {
        base + seq!['/'] + rest
    }
}

/// "~/"
pub open spec fn tilde_slash() -> Seq<char> {
    seq!['~', '/']
}

/// `path` with a leading `~/` (or a bare `~`) replaced by the home directory, when one is known.
pub open spec fn tilde_expanded(path: Seq<char>, home: Option<Seq<char>>) -> Seq<char> {
    match home {
        Some(h) => if starts_with(path, tilde_slash()) {
            path_join(h, path.subrange(2, path.len() as int))
        } else if path == seq!['~'] {
            h
        } else {
            path
        },
        None => path,
    }
}

/// The configuration file under a home directory (`~` when none is known):
/// `<home>/.config/pickey/config.toml`.
pub open spec fn config_path_for(home: Option<Seq<char>>) -> Seq<char> {
    let h = match home {
        Some(h) => h,
        None => seq!['~'],
    };
    path_join(
        path_join(path_join(h, seq!['.', 'c', 'o', 'n', 'f', 'i', 'g']), seq!['p', 'i', 'c', 'k', 'e', 'y']),
        seq!['c', 'o', 'n', 'f', 'i', 'g', '.', 't', 'o', 'm', 'l'],
    )
}

/// The user's home directory, from `dirs::home_dir` (on Unix: `$HOME`, else the password
/// database), as text; a home directory whose name is not valid Unicode cannot be held as
/// text and comes back as `None`, like a missing one. Nothing is promised of the result: it
/// depends on the environment.
#[verifier::external_body]
fn home_dir() -> (r: Option<String>) {
    dirs::home_dir().and_then(|p| p.into_os_string().into_string().ok())
}

/// `base` joined with `rest` (see `path_join`).
pub fn join_path(base: &Vec<char>, rest: &Vec<char>) -> (r: Vec<char>)
    ensures
        r@ == path_join(base@, rest@),
{
    let mut r: Vec<char> = Vec::new();
    if rest.len() > 0 && rest[0] == '/' {
        let mut t = rest.clone();
        r.append(&mut t);
        return r;
    }
    let mut b = base.clone();
    r.append(&mut b);
    if !(base.len() == 0 || base[base.len() - 1] == '/') {
        r.push('/');
    }
    let mut t = rest.clone();
    r.append(&mut t);
    r
}

/// `path` with `~` expanded against the given home directory.
pub fn expand_tilde_in(path: &str, home: Option<&str>) -> (r: String)
    ensures
        r@ == tilde_expanded(path@, match home {
            Some(h) => Some(h@),
            None => None,
        }),
{
    let p = chars_of(path);
    match home {
        Some(h) => {
            let hv = chars_of(h);
            if p.len() >= 2 && p[0] == '~' && p[1] == '/' {
                assert(p@.subrange(0, 2) =~= tilde_slash());
                let rest = crate::text::slice_of(&p, 2, p.len());
                let j = join_path(&hv, &rest);
                return string_of(&j);
            }
            assert(!starts_with(p@, tilde_slash())) by {
                if p@.len() >= 2 {
                    assert(p@.subrange(0, 2)[0] == p@[0]);
                    assert(p@.subrange(0, 2)[1] == p@[1]);
                }
            }
            if p.len() == 1 && p[0] == '~' {
                assert(p@ =~= seq!['~']);
                return string_of(&hv);
            }
            assert(p@ != seq!['~']) by {
                if p@ == seq!['~'] {
                    assert(p@.len() == 1 && p@[0] == '~');
                }
            }
            string_of(&p)
        },
        None => string_of(&p),
    }
}

/// Expand `~` at the start of a path to the user's home directory. Whatever home directory
/// the environment gives (or none), the result is `path` expanded against it.
pub fn expand_tilde(path: &str) -> (r: String)
    ensures
        exists|home: Option<Seq<char>>| r@ == tilde_expanded(path@, home),
        !starts_with(path@, tilde_slash()) && path@ != seq!['~'] ==> r@ == path@,
{
    let home = home_dir();
    let r = match &home {
        Some(h) => expand_tilde_in(path, Some(h.as_str())),
        None => expand_tilde_in(path, None),
    };
    let ghost hv = match home {
        Some(h) => Some(h@),
        None => None,
    };
    assert(r@ == tilde_expanded(path@, hv));
    r
}

/// The configuration file path for the given home directory.
pub fn config_path_in(home: Option<&str>) -> (r: String)
    ensures
        r@ == config_path_for(match home {
            Some(h) => Some(h@),
            None => None,
        }),
{
    let h: Vec<char> = match home {
        Some(h) => chars_of(h),
        None => vec!['~'],
    };
    let c1: Vec<char> = vec!['.', 'c', 'o', 'n', 'f', 'i', 'g'];
    let c2: Vec<char> = vec!['p', 'i', 'c', 'k', 'e', 'y'];
    let c3: Vec<char> = vec!['c', 'o', 'n', 'f', 'i', 'g', '.', 't', 'o', 'm', 'l'];
    assert(c1@ =~= seq!['.', 'c', 'o', 'n', 'f', 'i', 'g']);
    assert(c2@ =~= seq!['p', 'i', 'c', 'k', 'e', 'y']);
    assert(c3@ =~= seq!['c', 'o', 'n', 'f', 'i', 'g', '.', 't', 'o', 'm', 'l']);
    assert(home is None ==> h@ =~= seq!['~']);
    let a = join_path(&h, &c1);
    let b = join_path(&a, &c2);
    let c = join_path(&b, &c3);
    string_of(&c)
}

/// Default config file path: `~/.config/pickey/config.toml` (XDG-style, also on macOS).
/// Whatever home directory the environment gives, the result is the file under it.
pub fn default_config_path() -> (r: String)
    ensures
        exists|home: Option<Seq<char>>| r@ == config_path_for(home),
{
    let home = home_dir();
    let r = match &home {
        Some(h) => config_path_in(Some(h.as_str())),
        None => config_path_in(None),
    };
    let ghost hv = match home {
        Some(h) => Some(h@),
        None => None,
    };
    assert(r@ == config_path_for(hv));
    r
}

impl Rule {
    /// The key path with `~` expanded to the home directory.
    pub fn expanded_key(&self) -> (r: String)
        ensures
            exists|home: Option<Seq<char>>| r@ == tilde_expanded(self.key@, home),
            !starts_with(self.key@, tilde_slash()) && self.key@ != seq!['~'] ==> r@ == self.key@,
    {
        expand_tilde(self.key.as_str())
    }
}

} // verus!
