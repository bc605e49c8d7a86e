//! What the picker shows of a host and of a directory.

use crate::text::{chars_of, opt_str, starts_with};
use vstd::prelude::*;

verus! {

/// A host that the picker offers.
#[derive(Debug)]
pub struct HostEntry {
    pub name: String,
    pub target: String,
}

/// The texts of a host.
pub struct HostText {
    pub name: Seq<char>,
    pub target: Seq<char>,
}

impl View for HostEntry {
    type V = HostText;

    open spec fn view(&self) -> HostText {
        HostText { name: self.name@, target: self.target@ }
    }
}

/// The texts of some hosts.
pub open spec fn host_texts(hosts: Seq<HostEntry>) -> Seq<HostText> {
    hosts.map_values(|h: HostEntry| h@)
}

/// The directory `dir` itself, or a path that lies under it.
pub open spec fn lies_in(path: Seq<char>, dir: Seq<char>) -> bool {
    path == dir || (dir + "/"@).is_prefix_of(path)
}

/// A path as it is shown: the home directory, and what lies under it, starts
/// with `~`.
pub open spec fn tilde_text(path: Seq<char>, home: Option<Seq<char>>) -> Seq<char> {
    match home {
        Some(h) => if h.len() > 0 && lies_in(path, h) {
            "~"@ + path.skip(h.len() as int)
        } else {
            path
        },
        None => path,
    }
}

/// The directory `dir` itself, or a path that lies under it.
fn within(path: &[char], dir: &[char]) -> (r: bool)
    ensures
        r == lies_in(path@, dir@),
        r ==> dir@.len() <= path@.len(),
{
    proof {
        reveal_strlit("/");
    }
    let ghost under = dir@ + "/"@;
    let n: usize = dir.len();
    if !starts_with(path, dir) {
        proof {
            assert(path@ == dir@ ==> dir@ =~= path@.subrange(0, n as int));
            if under.is_prefix_of(path@) {
                assert forall|i: int| 0 <= i < n implies dir@[i] == path@[i] by {
                    assert(under[i] == path@.subrange(0, under.len() as int)[i]);
                }
                assert(dir@ =~= path@.subrange(0, n as int));
            }
        }
        return false;
    }
    assert(forall|i: int| 0 <= i < n ==> dir@[i] == path@.subrange(0, n as int)[i]);
    if path.len() == n {
        assert(path@ =~= dir@);
        return true;
    }
    proof {
        if path@[n as int] == '/' {
            assert(under =~= path@.subrange(0, under.len() as int));
        } else {
            assert(path@.subrange(0, under.len() as int)[n as int] != under[n as int]);
        }
    }
    path[n] == '/'
}

/// A path as it is shown, given the home directory where one is known.
pub fn tilde(path: &str, home: Option<&str>) -> (r: String)
    ensures
        r@ == tilde_text(path@, opt_str(home)),
{
    if let Some(h) = home {
        let hs = chars_of(h);
        let ps = chars_of(path);
        if hs.len() > 0 && within(ps.as_slice(), hs.as_slice()) {
            let mut r = "~".to_owned();
            r.append(path.substring_char(hs.len(), ps.len()));
            assert(path@.subrange(hs@.len() as int, ps@.len() as int) =~= path@.skip(
                hs@.len() as int,
            ));
            return r;
        }
    }
    path.to_owned()
}

/// The value of a variable, where an empty one counts as unset.
pub open spec fn set_text(var: Option<Seq<char>>) -> Option<Seq<char>> {
    match var {
        Some(t) => if t.len() > 0 {
            Some(t)
        } else {
            None
        },
        None => None,
    }
}

/// The value of a variable, where an empty one counts as unset.
pub fn set_value(var: Option<&str>) -> (r: Option<String>)
    ensures
        crate::text::opt_text(r) == set_text(opt_str(var)),
{
    match var {
        Some(t) => if t.is_empty() {
            None
        } else {
            Some(t.to_owned())
        },
        None => None,
    }
}

// --- laws -------------------------------------------------------------------

/// The home directory is shown as `~`, and what lies under it as `~/` and the rest
/// of its path, whatever the home directory is called.
pub proof fn law_what_lies_at_home_is_shown_short(home: Seq<char>, rest: Seq<char>)
    requires
        home.len() > 0,
    ensures
        tilde_text(home, Some(home)) == "~"@,
        tilde_text(home + "/"@ + rest, Some(home)) == "~/"@ + rest,
{
    reveal_strlit("~");
    reveal_strlit("/");
    reveal_strlit("~/");
    assert(tilde_text(home, Some(home)) =~= "~"@);
    let path = home + "/"@ + rest;
    assert(home + "/"@ =~= path.subrange(0, (home.len() + 1) as int));
    assert(path.skip(home.len() as int) =~= "/"@ + rest);
    assert("~"@ + ("/"@ + rest) =~= "~/"@ + rest);
}

/// Any other path is shown as it is: one that only starts with the same letters as
/// the home directory, and every path where no home directory is known.
pub proof fn law_other_paths_are_shown_as_they_are(path: Seq<char>, home: Option<Seq<char>>)
    requires
        home matches Some(h) ==> h.len() == 0 || (path != h && !(h + "/"@).is_prefix_of(path)),
    ensures
        tilde_text(path, home) == path,
{
}

/// A variable has a value exactly where it is set and not empty, and then it is
/// that.
pub proof fn law_empty_is_unset(var: Option<Seq<char>>, t: Seq<char>)
    ensures
        set_text(var) == Some(t) <==> var == Some(t) && t.len() > 0,
        set_text(var) is None <==> var is None || var == Some(Seq::<char>::empty()),
{
    if let Some(v) = var {
        if v.len() == 0 {
            assert(v =~= Seq::empty());
        }
    }
}

/// The texts of hosts are their names and targets, in order.
pub proof fn law_host_texts_are_the_hosts(hosts: Seq<HostEntry>, i: int)
    requires
        0 <= i < hosts.len(),
    ensures
        host_texts(hosts).len() == hosts.len(),
        host_texts(hosts)[i].name == hosts[i].name@,
        host_texts(hosts)[i].target == hosts[i].target@,
{
}

} // verus!
