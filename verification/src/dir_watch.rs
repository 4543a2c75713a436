//! Which file-system changes in the plugins directory concern plugin
//! packages: only `.dxp` files count, and each change becomes a created,
//! modified or removed event.
use vstd::prelude::*;
use crate::host_types::PluginFileEvent;
use crate::text::chars_of;

verus! {

/// The kind of a file-system change, as the watcher reports it.
#[derive(Debug, Clone, Copy, PartialEq, Eq, Structural)]
pub enum FsChange {
    Create,
    Modify,
    Remove,
    /// Access, metadata or any other change.
    Other,
}

/// `s` with its trailing `/` removed.
pub open spec fn trim_slashes(s: Seq<char>) -> Seq<char>
    decreases s.len(),
{
    if s.len() > 0 && s.last() == '/' {
        trim_slashes(s.drop_last())
    } else {
        s
    }
}

/// The part of `s` after its last `/` (all of it when there is none).
pub open spec fn after_last_slash(s: Seq<char>) -> Seq<char>
    decreases s.len(),
{
    if s.len() == 0 {
        s
    } else if s.last() == '/' {
        Seq::empty()
    } else {
        after_last_slash(s.drop_last()).push(s.last())
    }
}

/// The file name of a path: its last component, trailing `/` ignored.
pub open spec fn file_name(path: Seq<char>) -> Seq<char> {
    after_last_slash(trim_slashes(path))
}

/// Position of the last `.` of `s`, if any.
pub open spec fn last_dot(s: Seq<char>) -> Option<int>
    decreases s.len(),
{
    if s.len() == 0 {
        None
    } else if s.last() == '.' {
        Some(s.len() - 1)
    } else {
        last_dot(s.drop_last())
    }
}

/// The extension of a file name: what follows its last `.`, unless that
/// dot starts the name (a hidden file) or the name is `..`.
pub open spec fn extension(name: Seq<char>) -> Option<Seq<char>> {
    match last_dot(name) {
        Some(i) => if i > 0 && name != ".."@ {
            Some(name.subrange(i + 1, name.len() as int))
        } else {
            None
        },
        None => None,
    }
}

/// ASCII lower case of a character.
pub open spec fn ascii_lower(c: char) -> char {
    if 'A' <= c && c <= 'Z' {
        ((c as u8) + 32) as char
    } else {
        c
    }
}

/// `ext` is `dxp`, ignoring ASCII case.
pub open spec fn is_dxp_extension(ext: Seq<char>) -> bool {
    ext.len() == 3 && ascii_lower(ext[0]) == 'd' && ascii_lower(ext[1]) == 'x' && ascii_lower(ext[2]) == 'p'
}

/// The path names a `.dxp` package.
pub open spec fn names_package(path: Seq<char>) -> bool {
    extension(file_name(path)) matches Some(e) && is_dxp_extension(e)
}

fn lower(c: char) -> (r: char)
    ensures
        r == ascii_lower(c),
{
    if 'A' <= c && c <= 'Z' {
        ((c as u8) + 32) as char
    } else {
        c
    }
}

/// Whether `path` names a `.dxp` package (extension compared without
/// regard to ASCII case).
pub fn is_dxp_path(path: &str) -> (b: bool)
    ensures
        b == names_package(path@),
{
    let cs = chars_of(path);
    let mut end = cs.len();
    assert(cs@.take(end as int) =~= cs@);
    while end > 0 && cs[end - 1] == '/'
        invariant
            end <= cs@.len(),
            trim_slashes(cs@) == trim_slashes(cs@.take(end as int)),
        decreases end,
    {
        proof {
            assert(cs@.take(end as int).drop_last() =~= cs@.take(end - 1));
        }
        end = end - 1;
    }
    proof {
        assert(trim_slashes(cs@.take(end as int)) == cs@.take(end as int));
    }
    let mut start = end;
    while start > 0 && cs[start - 1] != '/'
        invariant
            start <= end <= cs@.len(),
            file_name(cs@) == after_last_slash(cs@.take(start as int)) + cs@.subrange(start as int, end as int),
            trim_slashes(cs@) == cs@.take(end as int),
        decreases start,
    {
        proof {
            let t = cs@.take(start as int);
            assert(t.drop_last() =~= cs@.take(start - 1));
            assert(after_last_slash(t) == after_last_slash(cs@.take(start - 1)).push(t.last()));
            assert(after_last_slash(cs@.take(start - 1)) + cs@.subrange(start - 1, end as int)
                =~= after_last_slash(cs@.take(start - 1)).push(t.last()) + cs@.subrange(start as int, end as int));
        }
        start = start - 1;
    }
    proof {
        if start > 0 {
            assert(after_last_slash(cs@.take(start as int)) == Seq::<char>::empty());
        } else {
            assert(cs@.take(0) =~= Seq::<char>::empty());
        }
        assert(file_name(cs@) =~= cs@.subrange(start as int, end as int));
    }
    let ghost name = cs@.subrange(start as int, end as int);
    let mut dot = end;
    assert(name.take(dot - start) =~= name);
    while dot > start && cs[dot - 1] != '.'
        invariant
            start <= dot <= end <= cs@.len(),
            name == cs@.subrange(start as int, end as int),
            last_dot(name) == last_dot(name.take(dot - start)),
        decreases dot,
    {
        proof {
            assert(name.take(dot - start).drop_last() =~= name.take(dot - start - 1));
        }
        dot = dot - 1;
    }
    if dot == start {
        proof {
            assert(name.take(0) =~= Seq::<char>::empty());
        }
        return false;
    }
    proof {
        assert(name.take(dot - start).last() == '.');
        assert(last_dot(name) == Some(dot - start - 1));
    }
    let i = dot - 1;
    if i == start {
        return false;
    }
    if end - start == 2 && cs[start] == '.' && cs[start + 1] == '.' {
        proof {
            reveal_strlit("..");
            assert(name =~= ".."@);
        }
        return false;
    }
    proof {
        reveal_strlit("..");
        if name == ".."@ {
            assert(name.len() == 2 && name[0] == '.' && name[1] == '.');
        }
        assert(name.subrange(i - start + 1, name.len() as int) =~= cs@.subrange(dot as int, end as int));
    }
    end - dot == 3 && lower(cs[dot]) == 'd' && lower(cs[dot + 1]) == 'x' && lower(cs[dot + 2]) == 'p'
}

/// The package event for a change to `path`: none for files that are no
/// `.dxp` package and for changes other than creation, modification and
/// removal.
pub fn plugin_file_event(path: String, change: FsChange) -> (r: Option<PluginFileEvent>)
    ensures
        !names_package(path@) || change == FsChange::Other ==> r is None,
        names_package(path@) && change == FsChange::Create ==> r == Some(PluginFileEvent::Created(path)),
        names_package(path@) && change == FsChange::Modify ==> r == Some(PluginFileEvent::Modified(path)),
        names_package(path@) && change == FsChange::Remove ==> r == Some(PluginFileEvent::Removed(path)),
{
    if !is_dxp_path(path.as_str()) {
        return None;
    }
    match change {
        FsChange::Create => Some(PluginFileEvent::Created(path)),
        FsChange::Modify => Some(PluginFileEvent::Modified(path)),
        FsChange::Remove => Some(PluginFileEvent::Removed(path)),
        FsChange::Other => None,
    }
}

} // verus!
