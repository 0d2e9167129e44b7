//! Path text: where the configuration files live inside the configuration
//! directory, where a store file goes for a chosen location, and which
//! output format a file name asks for. Paths are Unix paths, `/`-separated,
//! held as text.

use vstd::prelude::*;
use crate::text::{to_chars, split_chars, split_on, push_str};

verus! {

/// `name` appended to `dir` with one separator, as `Path::join` does for a
/// relative name: nothing is added to an empty directory or one that ends in
/// `/`.
pub open spec fn join(dir: Seq<char>, name: Seq<char>) -> Seq<char> {
    if dir.len() == 0 || dir.last() == '/' {
        dir + name
    } else {
        dir + seq!['/'] + name
    }
}

/// `dir` joined with `name`.
pub fn join_path(dir: &str, name: &str) -> (p: String)
    ensures
        p@ == join(dir@, name@),
{
    let cs = to_chars(dir);
    let mut p = String::new();
    push_str(&mut p, dir);
    if cs.len() > 0 && cs[cs.len() - 1] != '/' {
        p.push('/');
    }
    push_str(&mut p, name);
    p
}

/// The settings file inside the configuration directory.
pub fn settings_file(config_dir: &str) -> (p: String)
    ensures
        p@ == join(config_dir@, "settings.toml"@),
{
    join_path(config_dir, "settings.toml")
}

/// The legacy settings file (`settings.json`), which is migrated on load.
pub fn legacy_settings_file(config_dir: &str) -> (p: String)
    ensures
        p@ == join(config_dir@, "settings.json"@),
{
    join_path(config_dir, "settings.json")
}

/// The default store file inside the configuration directory.
pub fn default_store_path(config_dir: &str) -> (p: String)
    ensures
        p@ == join(config_dir@, "store.json"@),
{
    join_path(config_dir, "store.json")
}

/// The folder-assignment file inside the configuration directory.
pub fn meta_file(config_dir: &str) -> (p: String)
    ensures
        p@ == join(config_dir@, "meta.json"@),
{
    join_path(config_dir, "meta.json")
}

/// The last component that names something: empty and `.` components are
/// skipped, as `Path::components` does.
pub open spec fn last_component(parts: Seq<Seq<char>>) -> Option<Seq<char>>
    decreases parts.len(),
{
    if parts.len() == 0 {
        None
    } else if parts.last().len() == 0 || parts.last() == seq!['.'] {
        last_component(parts.drop_last())
    } else {
        Some(parts.last())
    }
}

/// The final component of a path, unless it is `..` or there is none, as
/// `Path::file_name`.
pub open spec fn file_name(p: Seq<char>) -> Option<Seq<char>> {
    match last_component(split_on(p, '/')) {
        Some(c) => if c == seq!['.', '.'] {
            None
        } else {
            Some(c)
        },
        None => None,
    }
}

/// Position of the last `c` in `s`.
pub open spec fn last_index_of(s: Seq<char>, c: char) -> Option<int>
    decreases s.len(),
{
    if s.len() == 0 {
        None
    } else if s.last() == c {
        Some(s.len() - 1)
    } else {
        last_index_of(s.drop_last(), c)
    }
}

/// The extension of a path: what follows the last `.` of the file name,
/// unless that dot begins the name, as `Path::extension`.
pub open spec fn extension(p: Seq<char>) -> Option<Seq<char>> {
    match file_name(p) {
        None => None,
        Some(n) => match last_index_of(n, '.') {
            None => None,
            Some(i) => if i == 0 {
                None
            } else {
                Some(n.skip(i + 1))
            },
        },
    }
}

/// The extension of `path`.
pub fn path_extension(path: &str) -> (r: Option<String>)
    ensures
        match r {
            Some(e) => extension(path@) == Some(e@),
            None => extension(path@) is None,
        },
{
    let cs = to_chars(path);
    let parts = split_chars(&cs, '/');
    let ghost ps = parts@.map_values(|x: Vec<char>| x@);
    let mut k = parts.len();
    assert(ps.take(parts.len() as int) =~= ps);
    while k > 0 && (parts[k - 1].len() == 0 || (parts[k - 1].len() == 1 && parts[k - 1][0] == '.'))
        invariant
            k <= parts.len(),
            ps == parts@.map_values(|x: Vec<char>| x@),
            last_component(ps) == last_component(ps.take(k as int)),
        decreases k,
    {
        assert(ps.take(k as int).drop_last() =~= ps.take(k - 1));
        assert(ps.take(k as int).last() == parts@[k - 1]@);
        proof {
            if parts@[k - 1]@.len() == 1 {
                assert(parts@[k - 1]@ =~= seq!['.']);
            }
        }
        k = k - 1;
    }
    assert(ps.take(parts.len() as int) =~= ps);
    if k == 0 {
        assert(ps.take(0).len() == 0);
        return None;
    }
    let name = &parts[k - 1];
    proof {
        assert(ps.take(k as int).last() == name@);
        if name@.len() == 1 {
            assert(name@ != seq!['.']) by {
                assert(name@[0] != '.');
            }
        }
        assert(last_component(ps.take(k as int)) == Some(name@));
    }
    let n = name.len();
    if n == 2 && name[0] == '.' && name[1] == '.' {
        assert(name@ =~= seq!['.', '.']);
        return None;
    }
    assert(name@ != seq!['.', '.']) by {
        if name@.len() == 2 {
            assert(name@[0] != '.' || name@[1] != '.');
        }
    }
    let mut j = n;
    assert(name@.take(n as int) =~= name@);
    while j > 0 && name[j - 1] != '.'
        invariant
            j <= n == name.len(),
            last_index_of(name@, '.') == last_index_of(name@.take(j as int), '.'),
        decreases j,
    {
        assert(name@.take(j as int).drop_last() =~= name@.take(j - 1));
        j = j - 1;
    }
    assert(name@.take(n as int) =~= name@);
    if j == 0 {
        return None;
    }
    assert(name@.take(j as int).last() == '.');
    if j == 1 {
        return None;
    }
    let mut ext = String::new();
    let mut x = j;
    while x < n
        invariant
            j <= x <= n == name.len(),
            ext@ == name@.subrange(j as int, x as int),
        decreases n - x,
    {
        ext.push(name[x]);
        x = x + 1;
        assert(ext@ =~= name@.subrange(j as int, x as int));
    }
    assert(name@.skip(j as int) =~= name@.subrange(j as int, n as int));
    Some(ext)
}

/// Where the store goes for a chosen location: a `.json` file is used as is,
/// anything else is taken as a directory that holds `store.json`.
pub open spec fn store_path_spec(location: Seq<char>) -> Seq<char> {
    if extension(location) == Some("json"@) {
        location
    } else {
        join(location, "store.json"@)
    }
}

/// Law: the store file for any location names a `.json` file, and taking
/// the store file of that path again gives the same path.
pub proof fn law_store_path_is_json(location: Seq<char>)
    ensures
        extension(store_path_spec(location)) == Some("json"@),
        store_path_spec(store_path_spec(location)) == store_path_spec(location),
{
    if extension(location) != Some("json"@) {
        let name = "store.json"@;
        reveal_strlit("store.json");
        reveal_strlit("json");
        let base = if location.len() == 0 || location.last() == '/' {
            location
        } else {
            location + seq!['/']
        };
        assert(join(location, name) == base + name);
        if base.len() == 0 {
            assert(split_on(base, '/') == seq![Seq::<char>::empty()]);
        } else {
            assert(base.last() == '/');
            crate::text::lemma_split_on_len(base.drop_last(), '/');
            assert(split_on(base, '/').last() == Seq::<char>::empty());
        }
        crate::text::lemma_split_on_len(base, '/');
        assert forall|i: int| 0 <= i < name.len() implies #[trigger] name[i] != '/' by {}
        crate::envfile::lemma_split_on_append(base, name, '/');
        let parts = split_on(base + name, '/');
        assert(parts.last() =~= name);
        assert(last_component(parts) == Some(name));
        assert(name != seq!['.', '.']);
        assert(file_name(base + name) == Some(name));
        reveal_with_fuel(last_index_of, 6);
        assert(name.drop_last().drop_last().drop_last().drop_last() =~= seq!['s', 't', 'o', 'r', 'e', '.']);
        assert(last_index_of(name, '.') == Some(5int));
        assert(name.skip(6) =~= "json"@);
    }
}

/// The store file for a user-supplied location.
pub fn store_path_for(location: &str) -> (p: String)
    ensures
        p@ == store_path_spec(location@),
        extension(p@) == Some("json"@),
        store_path_spec(p@) == p@,
{
    proof {
        law_store_path_is_json(location@);
    }
    let is_json = match path_extension(location) {
        Some(e) => crate::text::string_eq(e.as_str(), "json"),
        None => false,
    };
    if is_json {
        location.to_owned()
    } else {
        join_path(location, "store.json")
    }
}


// --- the configuration directory -------------------------------------------

/// The configuration directory: `$XDG_CONFIG_HOME/devsecrets` when that is
/// set and not empty, else `~/.config/devsecrets` under the home directory,
/// else `.devsecrets`.
pub open spec fn config_dir_spec(xdg: Option<Seq<char>>, home: Option<Seq<char>>) -> Seq<char> {
    match xdg {
        Some(x) if x.len() > 0 => join(x, "devsecrets"@),
        _ => match home {
            Some(h) => join(join(h, ".config"@), "devsecrets"@),
            None => ".devsecrets"@,
        },
    }
}

/// The configuration directory for a given `$XDG_CONFIG_HOME` and home
/// directory.
pub fn config_dir_for(xdg: Option<&str>, home: Option<&str>) -> (d: String)
    ensures
        d@ == config_dir_spec(crate::text::opt_str_view(xdg), crate::text::opt_str_view(home)),
{
    if let Some(x) = xdg {
        if !x.is_empty() {
            return join_path(x, "devsecrets");
        }
    }
    match home {
        Some(h) => {
            let c = join_path(h, ".config");
            join_path(c.as_str(), "devsecrets")
        },
        None => ".devsecrets".to_owned(),
    }
}

/// `dirs::home_dir`: the user's home directory, if it can be found. What it
/// returns depends on the environment and the platform, so nothing is
/// claimed of it.
#[verifier::external_body]
fn home_dir() -> (h: Option<String>) {
    dirs::home_dir().map(|p| p.to_string_lossy().into_owned())
}

/// The configuration directory, given `$XDG_CONFIG_HOME`; the home directory
/// is looked up only when that is unset or empty.
pub fn config_dir(xdg: Option<String>) -> (d: String)
    ensures
        exists|home: Option<Seq<char>>| d@ == config_dir_spec(crate::text::opt_view(xdg), home),
{
    if let Some(x) = &xdg {
        if !x.as_str().is_empty() {
            let d = config_dir_for(Some(x.as_str()), None);
            assert(d@ == config_dir_spec(crate::text::opt_view(xdg), None));
            return d;
        }
    }
    let home = home_dir();
    let d = match &home {
        Some(h) => config_dir_for(None, Some(h.as_str())),
        None => config_dir_for(None, None),
    };
    assert(d@ == config_dir_spec(crate::text::opt_view(xdg), crate::text::opt_view(home)));
    d
}

/// Application settings: where the secrets store file lives.
pub struct Settings {
    /// Path of the secrets store file.
    pub store_path: String,
}

impl Settings {
    /// The default settings for a configuration directory: the store is
    /// `store.json` inside it.
    pub fn default_in(config_dir: &str) -> (s: Settings)
        ensures
            s.store_path@ == join(config_dir@, "store.json"@),
    {
        Settings { store_path: default_store_path(config_dir) }
    }
}

/// Whether a path is absolute (begins with `/`).
pub open spec fn is_absolute(p: Seq<char>) -> bool {
    p.len() > 0 && p[0] == '/'
}

/// A path made absolute against the working directory `cwd`.
pub open spec fn absolute_spec(p: Seq<char>, cwd: Seq<char>) -> Seq<char> {
    if is_absolute(p) {
        p
    } else {
        join(cwd, p)
    }
}

/// `path` made absolute against the working directory `cwd`, before the
/// file system resolves links in it.
pub fn absolute_path(path: &str, cwd: &str) -> (p: String)
    ensures
        p@ == absolute_spec(path@, cwd@),
{
    let cs = to_chars(path);
    if cs.len() > 0 && cs[0] == '/' {
        path.to_owned()
    } else {
        join_path(cwd, path)
    }
}

} // verus!
