//! The service configuration's shape and accessors.  Reading the file and
//! the environment happens at the boundary; this module only holds the
//! values.
use vstd::prelude::*;

verus! {

/// The command line: where the configuration file lives.
pub struct Cli {
    pub config_path: String,
}

/// The service's own settings.
pub struct App {
    pub database: String,
    pub schema: String,
    pub port: i32,
}

/// Object-storage credentials and endpoints.
pub struct Storage {
    pub aws_access_key_id: String,
    pub aws_secret_access_key: String,
    pub aws_endpoint_url_s3: String,
    pub aws_endpoint_url_iam: String,
    pub aws_region: String,
}

impl App {
    pub fn get_db(&self) -> (r: &str)
        ensures
            r@ == self.database@,
    {
        self.database.as_str()
    }

    pub fn get_port(&self) -> (r: i32)
        ensures
            r == self.port,
    {
        self.port
    }

    pub fn get_schema_path(&self) -> (r: &str)
        ensures
            r@ == self.schema@,
    {
        self.schema.as_str()
    }
}

/// The whole configuration.
pub struct Config {
    pub app: App,
    pub storage: Storage,
}

/// The first position at or after `i` where `${` opens a variable reference.
pub open spec fn find_open(text: Seq<char>, i: int) -> Option<int>
    decreases text.len() - i,
{
    if i < 0 || i + 1 >= text.len() {
        None
    } else if text[i] == '$' && text[i + 1] == '{' {
        Some(i)
    } else {
        find_open(text, i + 1)
    }
}

/// The first position at or after `i` where `}` closes it.
pub open spec fn find_close(text: Seq<char>, i: int) -> Option<int>
    decreases text.len() - i,
{
    if i < 0 || i >= text.len() {
        None
    } else if text[i] == '}' {
        Some(i)
    } else {
        find_close(text, i + 1)
    }
}

/// The first position of a `:-` default separator inside a reference body.
pub open spec fn find_sep(name: Seq<char>, i: int) -> Option<int>
    decreases name.len() - i,
{
    if i < 0 || i + 1 >= name.len() {
        None
    } else if name[i] == ':' && name[i + 1] == '-' {
        Some(i)
    } else {
        find_sep(name, i + 1)
    }
}

/// The variable a reference body names.
pub open spec fn ref_name(body: Seq<char>) -> Seq<char> {
    match find_sep(body, 0) {
        Some(j) => body.subrange(0, j),
        None => body,
    }
}

/// The fallback a reference body carries after `:-`, when it has one.
pub open spec fn ref_default(body: Seq<char>) -> Option<Seq<char>> {
    match find_sep(body, 0) {
        Some(j) => Some(body.subrange(j + 2, body.len() as int)),
        None => None,
    }
}

/// The variable references of a configuration text from position `i` on, in
/// order: name and optional default of each `${...}`; an unclosed opener
/// ends the scan.
pub open spec fn scan_refs(text: Seq<char>, i: int) -> Seq<(Seq<char>, Option<Seq<char>>)>
    decreases text.len() - i,
{
    match find_open(text, i) {
        None => Seq::<(Seq<char>, Option<Seq<char>>)>::empty(),
        Some(k) => match find_close(text, k) {
            None => Seq::<(Seq<char>, Option<Seq<char>>)>::empty(),
            Some(m) => if m < i || m >= text.len() {
                Seq::<(Seq<char>, Option<Seq<char>>)>::empty()
            } else {
                let body = text.subrange(k + 2, m);
                seq![(ref_name(body), ref_default(body))] + scan_refs(text, m + 1)
            },
        },
    }
}

/// The text with each reference replaced by the caller's value for it, in
/// scan order; replacements are not rescanned.
pub open spec fn subst_spec(text: Seq<char>, i: int, values: Seq<Seq<char>>, v: int) -> Seq<char>
    decreases text.len() - i,
{
    match find_open(text, i) {
        None => text.subrange(i, text.len() as int),
        Some(k) => match find_close(text, k) {
            None => text.subrange(i, text.len() as int),
            Some(m) => if m < i || m >= text.len() {
                text.subrange(i, text.len() as int)
            } else {
                text.subrange(i, k) + (if 0 <= v < values.len() {
                    values[v]
                } else {
                    Seq::<char>::empty()
                }) + subst_spec(text, m + 1, values, v + 1)
            },
        },
    }
}

/// A found separator sits in range, with room for its two characters.
proof fn lemma_find_sep_ge(name: Seq<char>, i: int)
    ensures
        find_sep(name, i) matches Some(j) ==> i <= j && j + 1 < name.len() && name[j] == ':'
            && name[j + 1] == '-',
    decreases name.len() - i,
{
    if !(i < 0 || i + 1 >= name.len()) && !(name[i] == ':' && name[i + 1] == '-') {
        lemma_find_sep_ge(name, i + 1);
    }
}

/// A found opener sits at or after where the search began.
proof fn lemma_find_open_ge(text: Seq<char>, i: int)
    ensures
        find_open(text, i) matches Some(k) ==> i <= k && k + 1 < text.len() && text[k] == '$'
            && text[k + 1] == '{',
    decreases text.len() - i,
{
    if !(i < 0 || i + 1 >= text.len()) && !(text[i] == '$' && text[i + 1] == '{') {
        lemma_find_open_ge(text, i + 1);
    }
}

/// A found closer sits at or after where the search began.
proof fn lemma_find_close_ge(text: Seq<char>, i: int)
    ensures
        find_close(text, i) matches Some(m) ==> i <= m < text.len() && text[m] == '}',
    decreases text.len() - i,
{
    if !(i < 0 || i >= text.len()) && text[i] != '}' {
        lemma_find_close_ge(text, i + 1);
    }
}

fn find_open_at(text: &str, from: usize) -> (r: Option<usize>)
    requires
        from <= text@.len(),
        text@.len() < usize::MAX,
    ensures
        match r {
            Some(k) => find_open(text@, from as int) == Some(k as int),
            None => find_open(text@, from as int) is None,
        },
{
    let n = text.unicode_len();
    let mut j = from;
    while j + 1 < n
        invariant
            n == text@.len(),
            n < usize::MAX,
            from <= j,
            j <= n,
            find_open(text@, from as int) == find_open(text@, j as int),
        decreases n - j,
    {
        if text.get_char(j) == '$' && text.get_char(j + 1) == '{' {
            return Some(j);
        }
        j = j + 1;
    }
    None
}

fn find_close_at(text: &str, from: usize) -> (r: Option<usize>)
    requires
        from <= text@.len(),
    ensures
        match r {
            Some(m) => find_close(text@, from as int) == Some(m as int),
            None => find_close(text@, from as int) is None,
        },
{
    let n = text.unicode_len();
    let mut j = from;
    while j < n
        invariant
            n == text@.len(),
            from <= j,
            j <= n,
            find_close(text@, from as int) == find_close(text@, j as int),
        decreases n - j,
    {
        if text.get_char(j) == '}' {
            return Some(j);
        }
        j = j + 1;
    }
    None
}

fn find_sep_at(body: &str) -> (r: Option<usize>)
    requires
        body@.len() < usize::MAX,
    ensures
        match r {
            Some(j) => find_sep(body@, 0) == Some(j as int),
            None => find_sep(body@, 0) is None,
        },
{
    let n = body.unicode_len();
    let mut j: usize = 0;
    while j + 1 < n
        invariant
            n == body@.len(),
            n < usize::MAX,
            j <= n,
            find_sep(body@, 0) == find_sep(body@, j as int),
        decreases n - j,
    {
        if body.get_char(j) == ':' && body.get_char(j + 1) == '-' {
            return Some(j);
        }
        j = j + 1;
    }
    None
}

/// Lists the `${...}` references of a configuration text, in order: the
/// variable name and the `:-` default when one is given.  The caller
/// resolves each name and hands the values to `substitute_env_vars`.
pub fn env_var_refs(text: &str) -> (r: Vec<(String, Option<String>)>)
    requires
        text@.len() < usize::MAX,
    ensures
        r@.map_values(|p: (String, Option<String>)| (p.0@, crate::store::opt_view(p.1)))
            == scan_refs(text@, 0),
{
    let ghost view_of = |p: (String, Option<String>)| (p.0@, crate::store::opt_view(p.1));
    let n = text.unicode_len();
    let mut out: Vec<(String, Option<String>)> = Vec::new();
    let mut i: usize = 0;
    let mut open = true;
    proof {
        assert(out@.map_values(view_of) + scan_refs(text@, i as int) =~= scan_refs(text@, 0));
    }
    while open
        invariant
            n == text@.len(),
            n < usize::MAX,
            i <= n,
            view_of == (|p: (String, Option<String>)| (p.0@, crate::store::opt_view(p.1))),
            open ==> out@.map_values(view_of) + scan_refs(text@, i as int) =~= scan_refs(
                text@,
                0,
            ),
            !open ==> out@.map_values(view_of) =~= scan_refs(text@, 0),
        decreases n - i + (if open {
            1int
        } else {
            0int
        }),
    {
        match find_open_at(text, i) {
            None => {
                open = false;
            },
            Some(k) => {
                proof {
                    lemma_find_open_ge(text@, i as int);
                }
                match find_close_at(text, k) {
                    None => {
                        open = false;
                    },
                    Some(m) => {
                        proof {
                            lemma_find_close_ge(text@, k as int);
                        }
                        let body_start = if k + 2 <= m {
                            k + 2
                        } else {
                            m
                        };
                        let body = text.substring_char(body_start, m);
                        proof {
                            assert(k + 2 <= m) by {
                                assert(text@[k as int] == '$' && text@[k + 1] == '{');
                                assert(text@[m as int] == '}');
                            }
                            assert(body@ == text@.subrange(k + 2, m as int));
                        }
                        let entry = match find_sep_at(body) {
                            Some(j) => {
                                proof {
                                    lemma_find_sep_ge(body@, 0);
                                }
                                let name = String::from_str(body.substring_char(0, j));
                                let bn = body.unicode_len();
                                let default = String::from_str(body.substring_char(j + 2, bn));
                                (name, Some(default))
                            },
                            None => (String::from_str(body), None),
                        };
                        proof {
                            assert(view_of(entry) == (ref_name(body@), ref_default(body@)));
                        }
                        let ghost before = out@;
                        out.push(entry);
                        proof {
                            assert(out@.map_values(view_of) =~= before.map_values(view_of).push(
                                view_of(entry),
                            ));
                            assert(scan_refs(text@, i as int) =~= seq![
                                (ref_name(text@.subrange(k + 2, m as int)), ref_default(
                                    text@.subrange(k + 2, m as int),
                                )),
                            ] + scan_refs(text@, m + 1));
                            assert(out@.map_values(view_of) + scan_refs(text@, m + 1) =~=
                                scan_refs(text@, 0));
                        }
                        i = m + 1;
                    },
                }
            },
        }
    }
    out
}

/// Replaces each `${...}` reference with the caller's value for it, in the
/// order `env_var_refs` lists them; a reference beyond the value list
/// becomes empty, and an unclosed opener is kept as it stands.
pub fn substitute_env_vars(text: &str, values: &Vec<String>) -> (r: String)
    requires
        text@.len() < usize::MAX,
    ensures
        r@ == subst_spec(text@, 0, values@.map_values(|s: String| s@), 0),
{
    let ghost vals = values@.map_values(|s: String| s@);
    let n = text.unicode_len();
    let mut r = String::new();
    let mut i: usize = 0;
    let mut v: usize = 0;
    let mut open = true;
    while open
        invariant
            n == text@.len(),
            n < usize::MAX,
            i <= n,
            vals == values@.map_values(|s: String| s@),
            v <= i,
            open ==> r@ + subst_spec(text@, i as int, vals, v as int) =~= subst_spec(
                text@,
                0,
                vals,
                0,
            ),
            !open ==> r@ =~= subst_spec(text@, 0, vals, 0),
        decreases n - i + (if open {
            1int
        } else {
            0int
        }),
    {
        match find_open_at(text, i) {
            None => {
                r.append(text.substring_char(i, n));
                open = false;
            },
            Some(k) => {
                proof {
                    lemma_find_open_ge(text@, i as int);
                }
                match find_close_at(text, k) {
                    None => {
                        r.append(text.substring_char(i, n));
                        open = false;
                    },
                    Some(m) => {
                        proof {
                            lemma_find_close_ge(text@, k as int);
                        }
                        r.append(text.substring_char(i, k));
                        if v < values.len() {
                            r.append(values[v].as_str());
                        }
                        proof {
                            assert(subst_spec(text@, i as int, vals, v as int) =~= text@.subrange(
                                i as int,
                                k as int,
                            ) + (if 0 <= v < vals.len() {
                                vals[v as int]
                            } else {
                                Seq::<char>::empty()
                            }) + subst_spec(text@, m + 1, vals, v + 1));
                            assert(r@ + subst_spec(text@, m + 1, vals, v + 1) =~= subst_spec(
                                text@,
                                0,
                                vals,
                                0,
                            ));
                        }
                        i = m + 1;
                        v = v + 1;
                    },
                }
            },
        }
    }
    r
}

} // verus!
