//! The registry of available backends, by name, with a default.
use vstd::prelude::*;

use crate::text::str_eq;

verus! {

/// Backends by name, and the name of the default one.
pub struct BackendRegistry<B> {
    backends: Vec<(String, B)>,
    default: String,
}

impl<B> BackendRegistry<B> {
    /// The names of the backends, in the order they were added.
    pub closed spec fn names(&self) -> Seq<Seq<char>> {
        self.backends@.map_values(|e: (String, B)| e.0@)
    }

    /// The backend at position `i`.
    pub closed spec fn backend_at(&self, i: int) -> B {
        self.backends@[i].1
    }

    /// The name of the default backend.
    pub closed spec fn default_of(&self) -> Seq<char> {
        self.default@
    }

    /// The registry of the backends found available, in priority order: launchd,
    /// systemd and supervisord when present, and native always.  The default is the
    /// first of them.
    pub fn detect(launchd: Option<B>, systemd: Option<B>, supervisord: Option<B>, native: B) -> (r: Self)
        ensures
            r.names() == (if launchd is Some {
                seq!["launchd"@]
            } else {
                Seq::empty()
            }) + (if systemd is Some {
                seq!["systemd"@]
            } else {
                Seq::empty()
            }) + (if supervisord is Some {
                seq!["supervisord"@]
            } else {
                Seq::empty()
            }) + seq!["native"@],
            r.default_of() == if launchd is Some {
                "launchd"@
            } else if systemd is Some {
                "systemd"@
            } else if supervisord is Some {
                "supervisord"@
            } else {
                "native"@
            },
            r.names().no_duplicates(),
            r.names().contains(r.default_of()),
            launchd matches Some(b) ==> r.backend_at(0) == b,
            systemd matches Some(b) ==> r.backend_at(if launchd is Some { 1int } else { 0int }) == b,
            supervisord matches Some(b) ==> r.backend_at(r.names().len() - 2) == b,
            r.backend_at(r.names().len() - 1) == native,
    {
        proof {
            reveal_strlit("launchd");
            reveal_strlit("systemd");
            reveal_strlit("supervisord");
            reveal_strlit("native");
        }
        let mut backends: Vec<(String, B)> = Vec::new();
        let has_l = launchd.is_some();
        let has_s = systemd.is_some();
        let has_v = supervisord.is_some();
        if let Some(b) = launchd {
            backends.push(("launchd".to_owned(), b));
        }
        if let Some(b) = systemd {
            backends.push(("systemd".to_owned(), b));
        }
        if let Some(b) = supervisord {
            backends.push(("supervisord".to_owned(), b));
        }
        backends.push(("native".to_owned(), native));
        let default = backends[0].0.clone();
        let r = BackendRegistry { backends, default };
        proof {
            let goal = (if has_l {
                seq!["launchd"@]
            } else {
                Seq::empty()
            }) + (if has_s {
                seq!["systemd"@]
            } else {
                Seq::empty()
            }) + (if has_v {
                seq!["supervisord"@]
            } else {
                Seq::empty()
            }) + seq!["native"@];
            assert(r.names() =~= goal);
            assert("launchd"@[0] != "systemd"@[0]);
            assert("launchd"@[0] != "supervisord"@[0]);
            assert("launchd"@[0] != "native"@[0]);
            assert("systemd"@[1] != "supervisord"@[1]);
            assert("systemd"@[0] != "native"@[0]);
            assert("supervisord"@[0] != "native"@[0]);
            assert(r.names().no_duplicates());
            assert(r.default_of() == r.names()[0]);
        }
        r
    }

    /// A registry without backends.
    pub fn empty() -> (r: Self)
        ensures
            r.names() == Seq::<Seq<char>>::empty(),
            r.default_of() == Seq::<char>::empty(),
    {
        let r = BackendRegistry { backends: Vec::new(), default: String::new() };
        assert(r.names() =~= Seq::<Seq<char>>::empty());
        r
    }

    /// A registry of the one backend `name`, which is the default.
    pub fn with_backend(name: String, backend: B) -> (r: Self)
        ensures
            r.names() == seq![name@],
            r.backend_at(0) == backend,
            r.default_of() == name@,
    {
        let mut backends: Vec<(String, B)> = Vec::new();
        let default = name.clone();
        backends.push((name, backend));
        let r = BackendRegistry { backends, default };
        assert(r.names() =~= seq![default@]);
        r
    }

    /// The backend named `name`: the first one added under that name.
    pub fn get(&self, name: &str) -> (r: Option<&B>)
        ensures
            match r {
                Some(b) => exists|i: int|
                    #![trigger self.backend_at(i)]
                    0 <= i < self.names().len() && self.names()[i] == name@ && *b == self.backend_at(i)
                        && forall|j: int| 0 <= j < i ==> self.names()[j] != name@,
                None => !self.names().contains(name@),
            },
    {
        let mut i: usize = 0;
        while i < self.backends.len()
            invariant
                i <= self.backends@.len(),
                forall|j: int| 0 <= j < i ==> self.names()[j] != name@,
            decreases self.backends@.len() - i,
        {
            if str_eq(self.backends[i].0.as_str(), name) {
                assert(self.names()[i as int] == name@);
                assert(self.backend_at(i as int) == self.backends@[i as int].1);
                return Some(&self.backends[i].1);
            }
            i = i + 1;
        }
        None
    }

    /// The default backend, if it is registered.
    pub fn default_backend(&self) -> (r: Option<&B>)
        ensures
            match r {
                Some(b) => exists|i: int|
                    #![trigger self.backend_at(i)]
                    0 <= i < self.names().len() && self.names()[i] == self.default_of() && *b
                        == self.backend_at(i),
                None => !self.names().contains(self.default_of()),
            },
    {
        self.get(self.default.as_str())
    }

    /// The names of the backends.
    pub fn available_backends(&self) -> (r: Vec<&str>)
        ensures
            r@.map_values(|s: &str| s@) == self.names(),
    {
        let mut out: Vec<&str> = Vec::new();
        let mut i: usize = 0;
        while i < self.backends.len()
            invariant
                i <= self.backends@.len(),
                out@.map_values(|s: &str| s@) == self.names().take(i as int),
            decreases self.backends@.len() - i,
        {
            let ghost before = out@.map_values(|s: &str| s@);
            let s = self.backends[i].0.as_str();
            assert(s@ == self.names()[i as int]);
            out.push(s);
            assert(out@.map_values(|s: &str| s@) =~= before.push(self.names()[i as int]));
            assert(out@.map_values(|s: &str| s@) =~= self.names().take(i + 1));
            i = i + 1;
        }
        assert(self.names().take(self.backends@.len() as int) =~= self.names());
        out
    }

    /// The name of the default backend.
    pub fn default_name(&self) -> (r: &str)
        ensures
            r@ == self.default_of(),
    {
        self.default.as_str()
    }
}

} // verus!
