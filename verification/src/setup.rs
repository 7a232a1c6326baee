//! The server's assembled configuration.
//!
//! Settings come from two places: the optional setup file and the options
//! the embedding program passes in.  Both are read once at startup; the
//! program's options win over the file's values, and anything neither
//! names falls back to a fixed default.  The redirect table maps request
//! paths to the locations callers are sent to.

use vstd::prelude::*;
use crate::QinServer;
use crate::utils::str_eq;

verus! {

/// The values the setup file provided, each optional.
pub struct SetupValues {
    pub verbose: Option<bool>,
    pub archive: Option<bool>,
    pub server_name: Option<String>,
    pub server_host: Option<String>,
    pub server_port: Option<u64>,
    pub serves_pubs: Option<bool>,
    pub serves_apps: Option<bool>,
    pub serves_dirs: Option<bool>,
    pub serves_cmds: Option<bool>,
    pub serves_regs: Option<bool>,
    pub serves_sqls: Option<bool>,
    pub serves_lizs: Option<bool>,
    pub redirects: Option<Vec<(String, String)>>,
}

/// The assembled configuration the server runs with.
pub struct Head {
    pub verbose: bool,
    pub archive: bool,
    pub server_name: String,
    pub server_host: String,
    pub server_port: u64,
    pub serves_pubs: bool,
    pub serves_apps: bool,
    pub serves_dirs: bool,
    pub serves_cmds: bool,
    pub serves_regs: bool,
    pub serves_sqls: bool,
    pub serves_lizs: bool,
    pub redirects: Option<Vec<(String, String)>>,
}

/// What a boolean setting assembles to: the override, else the file's
/// value, else the default.
pub open spec fn picked_bool(over: Option<bool>, file: Option<bool>, default: bool) -> bool {
    match over {
        Some(v) => v,
        None => match file {
            Some(v) => v,
            None => default,
        },
    }
}

/// The redirect table of a configuration, empty when none was given.
pub open spec fn head_redirects(h: Head) -> Seq<(Seq<char>, Seq<char>)> {
    match h.redirects {
        Some(v) => v.deep_view(),
        None => Seq::empty(),
    }
}

/// The first redirect whose origin equals the path.
pub open spec fn redirect_lookup(pairs: Seq<(Seq<char>, Seq<char>)>, path: Seq<char>) -> Option<
    Seq<char>,
>
    decreases pairs.len(),
{
    if pairs.len() == 0 {
        None
    } else if pairs[0].0 == path {
        Some(pairs[0].1)
    } else {
        redirect_lookup(pairs.skip(1), path)
    }
}

fn pick_bool(over: Option<bool>, file: Option<bool>, default: bool) -> (r: bool)
    ensures
        r == picked_bool(over, file, default),
{
    match over {
        Some(v) => v,
        None => match file {
            Some(v) => v,
            None => default,
        },
    }
}

impl Head {
    /// Assembles the configuration: the program's options override the
    /// file's values, and the fixed defaults fill what is left.  A
    /// redirect table given in both places is merged with the program's
    /// entries in front, so they win any lookup.
    pub fn load(file: SetupValues, over: QinServer) -> (r: Head)
        ensures
            r.verbose == picked_bool(over.verbose, file.verbose, false),
            r.archive == picked_bool(over.archive, file.archive, false),
            r.server_name@ == match over.server_name {
                Some(n) => n@,
                None => match file.server_name {
                    Some(n) => n@,
                    None => "QinpelSrv"@,
                },
            },
            r.server_host@ == match over.server_host {
                Some(h) => h@,
                None => match file.server_host {
                    Some(h) => h@,
                    None => "localhost"@,
                },
            },
            r.server_port == match over.server_port {
                Some(p) => p,
                None => match file.server_port {
                    Some(p) => p,
                    None => 5490u64,
                },
            },
            r.serves_pubs == picked_bool(over.serves_pubs, file.serves_pubs, false),
            r.serves_apps == picked_bool(over.serves_apps, file.serves_apps, false),
            r.serves_dirs == picked_bool(over.serves_dirs, file.serves_dirs, false),
            r.serves_cmds == picked_bool(over.serves_cmds, file.serves_cmds, false),
            r.serves_regs == picked_bool(over.serves_regs, file.serves_regs, false),
            r.serves_sqls == picked_bool(over.serves_sqls, file.serves_sqls, false),
            r.serves_lizs == picked_bool(over.serves_lizs, file.serves_lizs, false),
            match (over.redirects, file.redirects) {
                (None, None) => r.redirects is None,
                (Some(o), None) => r.redirects matches Some(v) && v.deep_view() == o.deep_view(),
                (None, Some(f)) => r.redirects matches Some(v) && v.deep_view() == f.deep_view(),
                (Some(o), Some(f)) => r.redirects matches Some(v) && v.deep_view() == o.deep_view()
                    + f.deep_view(),
            },
    {
        let redirects = match (over.redirects, file.redirects) {
            (None, None) => None,
            (Some(o), None) => Some(o),
            (None, Some(f)) => Some(f),
            (Some(o), Some(f)) => {
                let mut merged = o;
                let mut tail = f;
                let ghost o0 = merged.deep_view();
                let ghost f0 = tail.deep_view();
                merged.append(&mut tail);
                proof {
                    assert(merged.deep_view() =~~= o0 + f0);
                }
                Some(merged)
            },
        };
        Head {
            verbose: pick_bool(over.verbose, file.verbose, false),
            archive: pick_bool(over.archive, file.archive, false),
            server_name: match over.server_name {
                Some(n) => n,
                None => match file.server_name {
                    Some(n) => n,
                    None => "QinpelSrv".to_owned(),
                },
            },
            server_host: match over.server_host {
                Some(h) => h,
                None => match file.server_host {
                    Some(h) => h,
                    None => "localhost".to_owned(),
                },
            },
            server_port: match over.server_port {
                Some(p) => p,
                None => match file.server_port {
                    Some(p) => p,
                    None => 5490,
                },
            },
            serves_pubs: pick_bool(over.serves_pubs, file.serves_pubs, false),
            serves_apps: pick_bool(over.serves_apps, file.serves_apps, false),
            serves_dirs: pick_bool(over.serves_dirs, file.serves_dirs, false),
            serves_cmds: pick_bool(over.serves_cmds, file.serves_cmds, false),
            serves_regs: pick_bool(over.serves_regs, file.serves_regs, false),
            serves_sqls: pick_bool(over.serves_sqls, file.serves_sqls, false),
            serves_lizs: pick_bool(over.serves_lizs, file.serves_lizs, false),
            redirects,
        }
    }

    /// The location a request path is redirected to, if the table names
    /// it.
    pub fn redirect_for(&self, path: &str) -> (r: Option<String>)
        ensures
            match r {
                Some(d) => redirect_lookup(head_redirects(*self), path@) == Some(d@),
                None => redirect_lookup(head_redirects(*self), path@) is None,
            },
    {
        match &self.redirects {
            None => None,
            Some(pairs) => {
                proof {
                    assert(self.redirects == Some(*pairs));
                    assert(head_redirects(*self) == pairs.deep_view());
                }
                let ghost ps = pairs.deep_view();
                let n = pairs.len();
                let mut i: usize = 0;
                proof {
                    assert(ps.skip(0) =~= ps);
                }
                while i < n
                    invariant
                        n == pairs@.len(),
                        ps == pairs.deep_view(),
                        head_redirects(*self) == ps,
                        ps.len() == n,
                        i <= n,
                        redirect_lookup(ps, path@) == redirect_lookup(ps.skip(i as int), path@),
                    decreases n - i,
                {
                    proof {
                        assert(ps.skip(i as int)[0] == ps[i as int]);
                        assert(ps[i as int].0 == pairs@[i as int].0@);
                        assert(ps.skip(i as int).skip(1) =~= ps.skip(i + 1 as int));
                    }
                    if str_eq(pairs[i].0.as_str(), path) {
                        let d = pairs[i].1.clone();
                        proof {
                            assert(ps[i as int].1 == pairs@[i as int].1@);
                            assert(redirect_lookup(ps.skip(i as int), path@) == Some(
                                ps[i as int].1,
                            ));
                            assert(d@ == ps[i as int].1);
                            assert(redirect_lookup(ps, path@) == Some(d@));
                            assert(redirect_lookup(head_redirects(*self), path@) == Some(d@));
                        }
                        return Some(d);
                    }
                    i = i + 1;
                }
                proof {
                    assert(ps.skip(n as int) =~= Seq::<(Seq<char>, Seq<char>)>::empty());
                }
                None
            },
        }
    }
}

} // verus!
