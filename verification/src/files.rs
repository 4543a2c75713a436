//! Uploaded files: their metadata, and which messages they are attached to.
use vstd::prelude::*;
use crate::channel::{id_set, position_of, without};
use crate::keyed::{
    distinct_idents, entry_for, find_in, find_key, lemma_entry_at, lemma_entry_none, lemma_entry_push, lemma_entry_set,
    lemma_entry_unique, lemma_position_at, lemma_push_new, lemma_remove_at, lemma_update_same_ident, position_in,
    unique_keys, upsert, Identified,
};
use crate::messaging_types::{now_millis, random_uuid_simple};
use crate::store::{log_of, strings_without};
use crate::text::{push_str, str_equal};

verus! {

/// Metadata of an uploaded file. `uploaded_at` is in milliseconds since the
/// Unix epoch.
#[derive(Debug, Clone)]
pub struct FileReference {
    pub id: String,
    pub filename: String,
    pub mime_type: String,
    pub size_bytes: u64,
    /// Download URL, once the upload is complete.
    pub url: Option<String>,
    /// Checksum for integrity checks.
    pub checksum: Option<String>,
    pub uploaded_by: String,
    pub uploaded_at: i64,
}

impl Identified for FileReference {
    open spec fn ident(&self) -> Seq<char> {
        self.id@
    }
}

impl FileReference {
    /// A copy of the reference.
    pub fn duplicate(&self) -> (r: Self)
        ensures
            r == *self,
    {
        FileReference {
            id: self.id.clone(),
            filename: self.filename.clone(),
            mime_type: self.mime_type.clone(),
            size_bytes: self.size_bytes,
            url: match &self.url {
                Some(u) => Some(u.clone()),
                None => None,
            },
            checksum: match &self.checksum {
                Some(c) => Some(c.clone()),
                None => None,
            },
            uploaded_by: self.uploaded_by.clone(),
            uploaded_at: self.uploaded_at,
        }
    }
}

/// The files of `files` with the ids `ids`, in the order of `ids`; unknown
/// ids are skipped.
pub open spec fn resolve_files(files: Seq<FileReference>, ids: Seq<Seq<char>>) -> Seq<FileReference>
    decreases ids.len(),
{
    if ids.len() == 0 {
        Seq::empty()
    } else {
        let r = resolve_files(files, ids.drop_last());
        match find_in(files, ids.last()) {
            Some(f) => r.push(f),
            None => r,
        }
    }
}

/// Total size of the files of `files` uploaded by `user`.
pub open spec fn size_by(files: Seq<FileReference>, user: Seq<char>) -> int
    decreases files.len(),
{
    if files.len() == 0 {
        0
    } else {
        size_by(files.drop_last(), user) + if files.last().uploaded_by@ == user { files.last().size_bytes as int } else { 0 }
    }
}

/// Registry of uploaded files and of the files attached to each message.
pub struct FileRegistry {
    files: Vec<FileReference>,
    message_files: Vec<(String, Vec<String>)>,
}

impl FileRegistry {
    /// The registered files, in the order they were registered.
    pub closed spec fn all_files(self) -> Seq<FileReference> {
        self.files@
    }

    /// Ids of the files attached to `message`, in the order they were
    /// attached.
    pub closed spec fn attached(self, message: Seq<char>) -> Seq<Seq<char>> {
        log_of(entry_for(self.message_files@, message))
    }

    /// The registry's invariant: distinct file ids, one attachment list per
    /// message.
    pub closed spec fn wf(self) -> bool {
        &&& distinct_idents(self.files@)
        &&& unique_keys(self.message_files@)
    }

    /// The file with id `id`, if registered.
    pub open spec fn file(self, id: Seq<char>) -> Option<FileReference> {
        find_in(self.all_files(), id)
    }

    /// An empty registry.
    pub fn new() -> (r: Self)
        ensures
            r.wf(),
            r.all_files().len() == 0,
            forall|m: Seq<char>| #[trigger] r.attached(m) == Seq::<Seq<char>>::empty(),
    {
        FileRegistry { files: Vec::new(), message_files: Vec::new() }
    }

    fn find(&self, id: &str) -> (r: Option<usize>)
        requires
            self.wf(),
        ensures
            r is None ==> self.file(id@) is None,
            r matches Some(i) ==> i < self.all_files().len() && self.all_files()[i as int].id@ == id@ && position_in(self.all_files(), id@) == Some(i as int),
    {
        let mut i: usize = 0;
        while i < self.files.len()
            invariant
                self.wf(),
                i <= self.files@.len(),
                forall|k: int| 0 <= k < i ==> (#[trigger] self.files@[k]).id@ != id@,
            decreases self.files.len() - i,
        {
            if str_equal(self.files[i].id.as_str(), id) {
                proof {
                    lemma_position_at(self.files@, i as int);
                }
                return Some(i);
            }
            i = i + 1;
        }
        None
    }

    /// Registers an upload made at `now` under a fresh id `file_<uuid>`,
    /// and returns its reference.
    pub fn register_at(&mut self, filename: &str, mime_type: &str, size: u64, uploader: &str, now: i64) -> (f: FileReference)
        requires
            old(self).wf(),
        ensures
            final(self).wf(),
            f.id@.len() == 37,
            f.id@.subrange(0, 5) == "file_"@,
            f.filename@ == filename@,
            f.mime_type@ == mime_type@,
            f.size_bytes == size,
            f.url is None,
            f.checksum is None,
            f.uploaded_by@ == uploader@,
            f.uploaded_at == now,
            final(self).all_files() == upsert(old(self).all_files(), f),
            forall|m: Seq<char>| #[trigger] final(self).attached(m) == old(self).attached(m),
    {
        let mut id = String::new();
        push_str(&mut id, "file_");
        let u = random_uuid_simple();
        push_str(&mut id, u.as_str());
        proof {
            reveal_strlit("file_");
            assert(id@.subrange(0, 5) =~= "file_"@);
        }
        let file_ref = FileReference {
            id,
            filename: filename.to_string(),
            mime_type: mime_type.to_string(),
            size_bytes: size,
            url: None,
            checksum: None,
            uploaded_by: uploader.to_string(),
            uploaded_at: now,
        };
        let copy = file_ref.duplicate();
        let ghost before = self.files@;
        let ghost g = file_ref;
        match self.find(file_ref.id.as_str()) {
            Some(i) => {
                self.files.set(i, file_ref);
                proof {
                    lemma_update_same_ident(before, i as int, g);
                }
            },
            None => {
                self.files.push(file_ref);
                proof {
                    lemma_push_new(before, g);
                }
            },
        }
        copy
    }

    /// Registers an upload made now under a fresh id, and returns its
    /// reference.
    pub fn register(&mut self, filename: &str, mime_type: &str, size: u64, uploader: &str) -> (f: FileReference)
        requires
            old(self).wf(),
        ensures
            final(self).wf(),
            f.id@.subrange(0, 5) == "file_"@,
            f.filename@ == filename@,
            f.mime_type@ == mime_type@,
            f.size_bytes == size,
            f.url is None,
            f.checksum is None,
            f.uploaded_by@ == uploader@,
            final(self).all_files() == upsert(old(self).all_files(), f),
            forall|m: Seq<char>| #[trigger] final(self).attached(m) == old(self).attached(m),
    {
        let now = now_millis();
        self.register_at(filename, mime_type, size, uploader, now)
    }

    /// A copy of the file with id `id`, if registered.
    pub fn get(&self, id: &str) -> (r: Option<FileReference>)
        requires
            self.wf(),
        ensures
            r == self.file(id@),
    {
        match self.find(id) {
            Some(i) => Some(self.files[i].duplicate()),
            None => None,
        }
    }

    /// Attaches file `file_id` to message `message_id` (once); `false`
    /// when no such file is registered.
    pub fn attach_to_message(&mut self, file_id: &str, message_id: &str) -> (b: bool)
        requires
            old(self).wf(),
        ensures
            final(self).wf(),
            b == old(self).file(file_id@) is Some,
            final(self).all_files() == old(self).all_files(),
            final(self).attached(message_id@) == if b && !old(self).attached(message_id@).contains(file_id@) {
                old(self).attached(message_id@).push(file_id@)
            } else {
                old(self).attached(message_id@)
            },
            forall|m: Seq<char>| m != message_id@ ==> #[trigger] final(self).attached(m) == old(self).attached(m),
    {
        if self.find(file_id).is_none() {
            return false;
        }
        let ghost before = self.message_files@;
        match find_key(&self.message_files, message_id) {
            Some(i) => {
                proof {
                    lemma_entry_at(before, message_id@, i as int);
                }
                let (key, mut ids) = self.message_files.remove(i);
                let ghost views = ids@.map_values(|s: String| s@);
                let present = position_of(&ids, file_id).is_some();
                proof {
                    if views.contains(file_id@) {
                        let k = choose|k: int| 0 <= k < views.len() && views[k] == file_id@;
                        assert(ids@[k]@ == file_id@);
                    }
                    if id_set(ids@).contains(file_id@) {
                        let k = choose|k: int| 0 <= k < ids@.len() && (#[trigger] ids@[k])@ == file_id@;
                        assert(views[k] == file_id@);
                    }
                }
                if !present {
                    let ghost ib = ids@;
                    ids.push(file_id.to_string());
                    assert(ids@.map_values(|s: String| s@) =~= ib.map_values(|s: String| s@).push(file_id@));
                }
                let ghost g = ids;
                self.message_files.insert(i, (key, ids));
                proof {
                    assert(self.message_files@ =~= before.update(i as int, (before[i as int].0, g)));
                    lemma_entry_set(before, i as int, g);
                }
            },
            None => {
                proof {
                    lemma_entry_none(before, message_id@);
                }
                let ids = vec![file_id.to_string()];
                let key = message_id.to_string();
                let ghost k = key;
                let ghost g = ids;
                self.message_files.push((key, ids));
                proof {
                    lemma_entry_push(before, k, g);
                    assert(g@.map_values(|s: String| s@) =~= Seq::<Seq<char>>::empty().push(file_id@));
                }
            },
        }
        true
    }

    /// Copies of the files attached to `message_id`, in attachment order.
    pub fn get_message_files(&self, message_id: &str) -> (r: Vec<FileReference>)
        requires
            self.wf(),
        ensures
            r@ == resolve_files(self.all_files(), self.attached(message_id@)),
    {
        match find_key(&self.message_files, message_id) {
            Some(e) => {
                proof {
                    lemma_entry_at(self.message_files@, message_id@, e as int);
                }
                let ids = &self.message_files[e].1;
                let ghost log = ids@.map_values(|s: String| s@);
                let mut out: Vec<FileReference> = Vec::new();
                let mut j: usize = 0;
                while j < ids.len()
                    invariant
                        self.wf(),
                        j <= ids@.len(),
                        log == ids@.map_values(|s: String| s@),
                        out@ == resolve_files(self.files@, log.take(j as int)),
                    decreases ids.len() - j,
                {
                    proof {
                        assert(log.take(j + 1).drop_last() =~= log.take(j as int));
                        assert(log.take(j + 1).last() == ids@[j as int]@);
                    }
                    match self.find(ids[j].as_str()) {
                        Some(i) => {
                            proof {
                                lemma_position_at(self.files@, i as int);
                            }
                            out.push(self.files[i].duplicate());
                        },
                        None => {},
                    }
                    j = j + 1;
                }
                assert(log.take(log.len() as int) =~= log);
                out
            },
            None => {
                proof {
                    lemma_entry_none(self.message_files@, message_id@);
                }
                Vec::new()
            },
        }
    }

    /// Deletes file `id` and detaches it from every message; `false` when
    /// no such file is registered.
    pub fn delete(&mut self, id: &str) -> (b: bool)
        requires
            old(self).wf(),
        ensures
            final(self).wf(),
            b == old(self).file(id@) is Some,
            b ==> final(self).all_files() == old(self).all_files().remove(position_in(old(self).all_files(), id@)->Some_0),
            b ==> final(self).file(id@) is None,
            !b ==> final(self).all_files() == old(self).all_files(),
            forall|u: Seq<char>| u != id@ ==> #[trigger] final(self).file(u) == old(self).file(u),
            forall|m: Seq<char>| #[trigger] final(self).attached(m) == if b { without(old(self).attached(m), id@) } else { old(self).attached(m) },
    {
        match self.find(id) {
            None => false,
            Some(i) => {
                let ghost before = self.files@;
                self.files.remove(i);
                proof {
                    lemma_remove_at(before, i as int);
                }
                let ghost lists = self.message_files@;
                let ghost kept_files = self.files@;
                let mut j: usize = 0;
                while j < self.message_files.len()
                    invariant
                        self.files@ == kept_files,
                        j <= self.message_files@.len(),
                        self.message_files@.len() == lists.len(),
                        unique_keys(lists),
                        forall|k: int| 0 <= k < lists.len() ==> (#[trigger] self.message_files@[k]).0 == lists[k].0,
                        forall|k: int| 0 <= k < j ==> (#[trigger] self.message_files@[k]).1@.map_values(|s: String| s@) == without(lists[k].1@.map_values(|s: String| s@), id@),
                        forall|k: int| j <= k < lists.len() ==> #[trigger] self.message_files@[k] == lists[k],
                    decreases lists.len() - j,
                {
                    let ghost mid = self.message_files@;
                    let (key, ids) = self.message_files.remove(j);
                    let kept = strings_without(&ids, id);
                    let ghost g = kept;
                    self.message_files.insert(j, (key, kept));
                    proof {
                        assert(self.message_files@ =~= mid.update(j as int, (mid[j as int].0, g)));
                    }
                    j = j + 1;
                }
                proof {
                    assert forall|a: int, b: int| 0 <= a < self.message_files@.len() && 0 <= b < self.message_files@.len() && a != b implies (#[trigger] self.message_files@[a]).0@ != (#[trigger] self.message_files@[b]).0@ by {
                        assert(lists[a].0@ != lists[b].0@);
                    }
                    assert forall|m: Seq<char>| #[trigger] self.attached(m) == without(log_of(entry_for(lists, m)), id@) by {
                        if exists|k: int| 0 <= k < lists.len() && (#[trigger] lists[k]).0@ == m {
                            let k = choose|k: int| 0 <= k < lists.len() && (#[trigger] lists[k]).0@ == m;
                            lemma_entry_unique(lists, k);
                            lemma_entry_unique(self.message_files@, k);
                        } else {
                            lemma_entry_none(lists, m);
                            assert forall|k: int| 0 <= k < self.message_files@.len() implies (#[trigger] self.message_files@[k]).0@ != m by {
                                assert(self.message_files@[k].0 == lists[k].0);
                            }
                            lemma_entry_none(self.message_files@, m);
                            assert(without(Seq::<Seq<char>>::empty(), id@) =~= Seq::<Seq<char>>::empty());
                        }
                    }
                }
                true
            },
        }
    }

    /// Total size of the files uploaded by `user_id`.
    pub fn total_size_by_user(&self, user_id: &str) -> (n: u64)
        requires
            size_by(self.all_files(), user_id@) <= u64::MAX,
        ensures
            n == size_by(self.all_files(), user_id@),
    {
        let mut n: u64 = 0;
        let mut i: usize = 0;
        while i < self.files.len()
            invariant
                i <= self.files@.len(),
                n == size_by(self.files@.take(i as int), user_id@),
                size_by(self.files@, user_id@) <= u64::MAX,
            decreases self.files.len() - i,
        {
            proof {
                assert(self.files@.take(i + 1).drop_last() =~= self.files@.take(i as int));
                assert(self.files@.take(i + 1).last() == self.files@[i as int]);
                lemma_size_by_prefix(self.files@, user_id@, i + 1);
            }
            if str_equal(self.files[i].uploaded_by.as_str(), user_id) {
                n = n + self.files[i].size_bytes;
            }
            i = i + 1;
        }
        assert(self.files@.take(self.files@.len() as int) =~= self.files@);
        n
    }

    /// Number of registered files.
    pub fn file_count(&self) -> (n: usize)
        ensures
            n == self.all_files().len(),
    {
        self.files.len()
    }
}

impl Default for FileRegistry {
    fn default() -> (r: Self)
        ensures
            r.wf(),
    {
        FileRegistry::new()
    }
}

proof fn lemma_size_by_prefix(files: Seq<FileReference>, user: Seq<char>, i: int)
    requires
        0 <= i <= files.len(),
    ensures
        0 <= size_by(files.take(i), user) <= size_by(files, user),
    decreases files.len(),
{
    if files.len() > 0 {
        if i == files.len() {
            assert(files.take(i) =~= files);
            lemma_size_by_prefix(files.drop_last(), user, files.len() - 1);
            assert(files.drop_last().take(files.len() - 1) =~= files.drop_last());
        } else {
            lemma_size_by_prefix(files.drop_last(), user, i);
            assert(files.drop_last().take(i) =~= files.take(i));
        }
    }
}

} // verus!
