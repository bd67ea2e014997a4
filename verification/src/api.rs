//! The settings that the API server is started with: the root directory of its Hurl files
//! and the default variables of every run. Each can be set once; a later setting is
//! ignored.

use vstd::prelude::*;
use crate::models::{EnvVars, pair_views};
use crate::pairs::{
    collect_pairs, insert_all, insert_pair, last_value, lemma_lookup_insert_all, lookup, map_from_pairs,
};
use crate::text::{chars_of, eq_str, push_all, push_str, string_from_chars, trim, trim_chars};

verus! {

/// `s` without the `c`s at its end.
pub open spec fn strip_end(s: Seq<char>, c: char) -> Seq<char>
    decreases s.len(),
{
    if s.len() > 0 && s.last() == c {
        strip_end(s.drop_last(), c)
    } else {
        s
    }
}

/// `s` without the `c`s at its start.
pub open spec fn strip_start(s: Seq<char>, c: char) -> Seq<char>
    decreases s.len(),
{
    if s.len() > 0 && s[0] == c {
        strip_start(s.drop_first(), c)
    } else {
        s
    }
}

/// Where a path asked for stands: the root directory (`.` when none is set) for a blank
/// path or `.`; otherwise the root and the trimmed path joined by one `/`.
pub open spec fn resolved_path(root_dir: Option<Seq<char>>, path: Seq<char>) -> Seq<char> {
    let root = match root_dir {
        Some(d) => d,
        None => "."@,
    };
    let p = trim(path);
    if p.len() == 0 || p == "."@ {
        root
    } else {
        strip_end(root, '/') + "/"@ + strip_start(p, '/')
    }
}

/// The variables of a run: the defaults, with those of the request set over them; the
/// request's alone where there are no defaults.
pub open spec fn merged_vars(
    defaults: Option<Seq<(Seq<char>, Seq<char>)>>,
    request: Option<Seq<(Seq<char>, Seq<char>)>>,
) -> Option<Seq<(Seq<char>, Seq<char>)>> {
    let d = match defaults {
        Some(e) => e,
        None => seq![],
    };
    if d.len() == 0 {
        request
    } else {
        Some(
            match request {
                Some(r) => insert_all(d, r),
                None => d,
            },
        )
    }
}

pub open spec fn vars_view(e: Option<EnvVars>) -> Option<Seq<(Seq<char>, Seq<char>)>> {
    match e {
        Some(v) => Some(pair_views(v@)),
        None => None,
    }
}

fn strip_end_chars(s: &[char], c: char) -> (r: &[char])
    ensures
        r@ == strip_end(s@, c),
{
    let mut n = s.len();
    proof {
        assert(s@.take(n as int) =~= s@);
    }
    while n > 0 && s[n - 1] == c
        invariant
            n <= s@.len(),
            strip_end(s@, c) == strip_end(s@.take(n as int), c),
        decreases n,
    {
        proof {
            assert(s@.take(n as int).drop_last() =~= s@.take(n - 1));
        }
        n = n - 1;
    }
    proof {
        assert(s@.subrange(0, n as int) =~= s@.take(n as int));
    }
    &s[0..n]
}

fn strip_start_chars(s: &[char], c: char) -> (r: &[char])
    ensures
        r@ == strip_start(s@, c),
{
    let mut i: usize = 0;
    proof {
        assert(s@.skip(0) =~= s@);
    }
    while i < s.len() && s[i] == c
        invariant
            i <= s@.len(),
            strip_start(s@, c) == strip_start(s@.skip(i as int), c),
        decreases s.len() - i,
    {
        proof {
            assert(s@.skip(i as int).drop_first() =~= s@.skip(i + 1));
        }
        i = i + 1;
    }
    let n = s.len();
    proof {
        assert(s@.subrange(i as int, n as int) =~= s@.skip(i as int));
    }
    &s[i..n]
}

/// What `env-default` answers: whether an env file was loaded, which one, and how many
/// variables it gave.
pub struct EnvDefaultResponse {
    pub loaded: bool,
    pub source: Option<String>,
    pub count: usize,
}

/// The server's settings.
pub struct ApiState {
    root_dir: Option<String>,
    default_env: Option<EnvVars>,
    default_env_source: Option<String>,
}

pub struct ApiStateV {
    pub root_dir: Option<Seq<char>>,
    pub default_env: Option<Seq<(Seq<char>, Seq<char>)>>,
    pub default_env_source: Option<Seq<char>>,
}

impl View for ApiState {
    type V = ApiStateV;

    closed spec fn view(&self) -> ApiStateV {
        ApiStateV {
            root_dir: match self.root_dir {
                Some(d) => Some(d@),
                None => None,
            },
            default_env: match self.default_env {
                Some(e) => Some(pair_views(e@)),
                None => None,
            },
            default_env_source: match self.default_env_source {
                Some(s) => Some(s@),
                None => None,
            },
        }
    }
}

impl ApiState {
    /// Settings where nothing is set yet.
    pub fn new() -> (r: ApiState)
        ensures
            r@.root_dir is None,
            r@.default_env is None,
            r@.default_env_source is None,
    {
        ApiState { root_dir: None, default_env: None, default_env_source: None }
    }

    /// Sets the root directory, unless it is set already.
    pub fn set_root_dir(&mut self, dir: String)
        ensures
            final(self)@.root_dir == (match old(self)@.root_dir {
                Some(d) => Some(d),
                None => Some(dir@),
            }),
            final(self)@.default_env == old(self)@.default_env,
            final(self)@.default_env_source == old(self)@.default_env_source,
    {
        if self.root_dir.is_none() {
            self.root_dir = Some(dir);
        }
    }

    /// Sets the default variables (collected into a map, a later pair of a name winning)
    /// unless they are set already, and the file they came from unless that is set already.
    pub fn set_default_env(&mut self, vars: EnvVars, source: Option<String>)
        ensures
            final(self)@.default_env == (match old(self)@.default_env {
                Some(e) => Some(e),
                None => Some(map_from_pairs(pair_views(vars@))),
            }),
            final(self)@.default_env_source == (match (old(self)@.default_env_source, source) {
                (Some(s), _) => Some(s),
                (None, Some(s)) => Some(s@),
                (None, None) => None,
            }),
            final(self)@.root_dir == old(self)@.root_dir,
    {
        if self.default_env.is_none() {
            self.default_env = Some(collect_pairs(&vars));
        }
        if let Some(s) = source {
            if self.default_env_source.is_none() {
                self.default_env_source = Some(s);
            }
        }
    }

    /// Where a path asked for stands (see `resolved_path`).
    pub fn resolve_path(&self, path: &str) -> (r: String)
        ensures
            r@ == resolved_path(self@.root_dir, path@),
    {
        let root = match &self.root_dir {
            Some(d) => chars_of(d.as_str()),
            None => chars_of("."),
        };
        let pc = chars_of(path);
        let p = trim_chars(pc.as_slice());
        if p.len() == 0 || eq_str(p, ".") {
            return string_from_chars(root.as_slice());
        }
        let mut out: Vec<char> = Vec::new();
        push_all(&mut out, strip_end_chars(root.as_slice(), '/'));
        push_str(&mut out, "/");
        push_all(&mut out, strip_start_chars(p, '/'));
        string_from_chars(out.as_slice())
    }

    /// The variables of a run asked for with `request_env` (see `merged_vars`).
    pub fn merged_env(&self, request_env: Option<EnvVars>) -> (r: Option<EnvVars>)
        ensures
            vars_view(r) == merged_vars(self@.default_env, vars_view(request_env)),
    {
        let defaults_empty = match &self.default_env {
            Some(e) => e.len() == 0,
            None => true,
        };
        if defaults_empty {
            return request_env;
        }
        let mut merged: EnvVars = match &self.default_env {
            Some(e) => copy_pairs(e),
            None => Vec::new(),
        };
        if let Some(overrides) = request_env {
            let ghost start = pair_views(merged@);
            let ghost ov = pair_views(overrides@);
            let mut i: usize = 0;
            while i < overrides.len()
                invariant
                    i <= overrides@.len(),
                    ov == pair_views(overrides@),
                    pair_views(merged@) == insert_all(start, ov.take(i as int)),
                decreases overrides.len() - i,
            {
                let (k, v) = (overrides[i].0.clone(), overrides[i].1.clone());
                insert_pair(&mut merged, k, v);
                proof {
                    assert(ov.take(i + 1).drop_last() =~= ov.take(i as int));
                }
                i = i + 1;
            }
            proof {
                assert(ov.take(overrides@.len() as int) =~= ov);
            }
        }
        Some(merged)
    }

    /// What `env-default` answers.
    pub fn env_default(&self) -> (r: EnvDefaultResponse)
        ensures
            r.loaded == (self@.default_env_source is Some),
            match (r.source, self@.default_env_source) {
                (Some(a), Some(b)) => a@ == b,
                (None, None) => true,
                _ => false,
            },
            r.count == (match self@.default_env {
                Some(e) => e.len(),
                None => 0,
            }),
    {
        let count = match &self.default_env {
            Some(e) => e.len(),
            None => 0,
        };
        let source = match &self.default_env_source {
            Some(s) => Some(s.clone()),
            None => None,
        };
        EnvDefaultResponse { loaded: source.is_some(), source, count }
    }
}

fn copy_pairs(e: &EnvVars) -> (r: EnvVars)
    ensures
        pair_views(r@) == pair_views(e@),
{
    let mut out: EnvVars = Vec::new();
    let mut i: usize = 0;
    while i < e.len()
        invariant
            i <= e@.len(),
            out@.len() == i,
            forall|k: int| 0 <= k < i ==> #[trigger] out@[k].0@ == e@[k].0@ && out@[k].1@ == e@[k].1@,
        decreases e.len() - i,
    {
        out.push((e[i].0.clone(), e[i].1.clone()));
        i = i + 1;
    }
    proof {
        assert(pair_views(out@) =~= pair_views(e@));
    }
    out
}

/// A variable of the request overrides the default of the same name; the other defaults
/// stay as they are.
pub proof fn lemma_request_overrides_defaults(
    defaults: Seq<(Seq<char>, Seq<char>)>,
    request: Seq<(Seq<char>, Seq<char>)>,
    k: Seq<char>,
)
    requires
        defaults.len() > 0,
    ensures
        merged_vars(Some(defaults), Some(request)) matches Some(m) && lookup(m, k) == (match last_value(request, k) {
            Some(v) => Some(v),
            None => lookup(defaults, k),
        }),
{
    lemma_lookup_insert_all(defaults, request, k);
}

} // verus!
