//! The files attached to a draft, in the order they were added, each under
//! a random id.
use vstd::prelude::*;
use indexmap::IndexMap;
use crate::text::{chars_of, push_str_chars, string_of};

verus! {

/// A file attached to a draft.
#[derive(Clone)]
pub struct Attachment {
    pub id: u64,
    pub filename: String,
    /// Sent hidden behind a spoiler.
    pub spoiler: bool,
    pub contents: Vec<u8>,
}

#[verifier::external_type_specification]
#[verifier::external_body]
#[verifier::reject_recursive_types(K)]
#[verifier::reject_recursive_types(V)]
#[verifier::reject_recursive_types(S)]
pub struct ExIndexMap<K, V, S>(IndexMap<K, V, S>);

/// Whether `infer` recognises the bytes as an image.
pub uninterp spec fn image_bytes(bytes: Seq<u8>) -> bool;

/// `infer::is_image`: whether the bytes begin like an image format that
/// `infer` knows; its answer is given by the name `image_bytes`.
#[verifier::external_body]
fn bytes_are_image(bytes: &[u8]) -> (r: bool)
    ensures
        r == image_bytes(bytes@),
{
    infer::is_image(bytes)
}

impl Attachment {
    /// Whether the attachment's contents are an image, which previews show
    /// as a picture.
    pub fn is_image(&self) -> (r: bool)
        ensures
            r == image_bytes(self.contents@),
    {
        bytes_are_image(self.contents.as_slice())
    }
}

/// The entries of an attachment map, in its order.
pub uninterp spec fn attachment_entries(m: IndexMap<u64, Attachment>) -> Seq<(u64, Attachment)>;

/// The position of the entry with key `k`.
pub open spec fn key_index(entries: Seq<(u64, Attachment)>, k: u64) -> Option<int> {
    if exists|i: int| 0 <= i < entries.len() && #[trigger] entries[i].0 == k {
        Some(choose|i: int| 0 <= i < entries.len() && #[trigger] entries[i].0 == k)
    } else {
        None
    }
}

pub open spec fn keys_distinct(entries: Seq<(u64, Attachment)>) -> bool {
    forall|i: int, j: int| 0 <= i < j < entries.len() ==> #[trigger] entries[i].0 != #[trigger] entries[j].0
}

/// `IndexMap::insert`: an existing key keeps its place and takes the new
/// value; a new key goes last.
pub open spec fn inserted(entries: Seq<(u64, Attachment)>, k: u64, v: Attachment) -> Seq<(u64, Attachment)> {
    match key_index(entries, k) {
        Some(i) => entries.update(i, (k, v)),
        None => entries.push((k, v)),
    }
}

/// The attachment with key `k`, if any, with its spoiler flag flipped; it
/// keeps its place.
pub open spec fn spoiler_flipped(entries: Seq<(u64, Attachment)>, k: u64) -> Seq<(u64, Attachment)> {
    match key_index(entries, k) {
        Some(i) => entries.update(i, (k, Attachment { spoiler: !entries[i].1.spoiler, ..entries[i].1 })),
        None => entries,
    }
}

proof fn lemma_key_index_unique(entries: Seq<(u64, Attachment)>, k: u64, i: int)
    requires
        keys_distinct(entries),
        0 <= i < entries.len(),
        entries[i].0 == k,
    ensures
        key_index(entries, k) == Some(i),
{
    let c = choose|c: int| 0 <= c < entries.len() && #[trigger] entries[c].0 == k;
    if c < i {
        assert(entries[c].0 != entries[i].0);
    }
    if c > i {
        assert(entries[i].0 != entries[c].0);
    }
}

/// Flipping the spoiler flag of the same attachment twice gives back the
/// attachments as they were.
pub proof fn law_toggle_spoiler_twice(entries: Seq<(u64, Attachment)>, k: u64)
    requires
        keys_distinct(entries),
    ensures
        spoiler_flipped(spoiler_flipped(entries, k), k) == entries,
{
    let once = spoiler_flipped(entries, k);
    match key_index(entries, k) {
        Some(i) => {
            assert(entries[i].0 == k);
            assert forall|a: int, b: int| 0 <= a < b < once.len() implies #[trigger] once[a].0 != #[trigger] once[b].0 by {
                assert(entries[a].0 != entries[b].0);
            }
            lemma_key_index_unique(once, k, i);
            assert(spoiler_flipped(once, k) =~= entries);
        },
        None => {},
    }
}

/// `IndexMap::new`: an empty map.
#[verifier::external_body]
fn map_new() -> (r: IndexMap<u64, Attachment>)
    ensures
        attachment_entries(r) == Seq::<(u64, Attachment)>::empty(),
{
    IndexMap::new()
}

/// `IndexMap::len`: the number of entries.
#[verifier::external_body]
fn map_len(m: &IndexMap<u64, Attachment>) -> (r: usize)
    ensures
        r == attachment_entries(*m).len(),
{
    m.len()
}

/// `IndexMap::insert`: an existing key keeps its place and takes the new
/// value, whose old value comes back; a new key goes last.
#[verifier::external_body]
fn map_insert(m: &mut IndexMap<u64, Attachment>, k: u64, v: Attachment) -> (r: Option<Attachment>)
    ensures
        attachment_entries(*final(m)) == inserted(attachment_entries(*old(m)), k, v),
        r == match key_index(attachment_entries(*old(m)), k) {
            Some(i) => Some(attachment_entries(*old(m))[i].1),
            None => None::<Attachment>,
        },
{
    m.insert(k, v)
}

/// `IndexMap::shift_remove`: the entry with key `k` leaves and the others
/// keep their order; its value comes back.
#[verifier::external_body]
fn map_shift_remove(m: &mut IndexMap<u64, Attachment>, k: u64) -> (r: Option<Attachment>)
    ensures
        match key_index(attachment_entries(*old(m)), k) {
            Some(i) => attachment_entries(*final(m)) == attachment_entries(*old(m)).remove(i) && r
                == Some(attachment_entries(*old(m))[i].1),
            None => attachment_entries(*final(m)) == attachment_entries(*old(m)) && r is None,
        },
{
    m.shift_remove(&k)
}

/// `IndexMap::get`: the value under key `k`.
#[verifier::external_body]
fn map_get(m: &IndexMap<u64, Attachment>, k: u64) -> (r: Option<&Attachment>)
    ensures
        r == match key_index(attachment_entries(*m), k) {
            Some(i) => Some(&attachment_entries(*m)[i].1),
            None => None::<&Attachment>,
        },
{
    m.get(&k)
}

/// `IndexMap::values`, each cloned: the values in the map's order.
#[verifier::external_body]
fn map_values_cloned(m: &IndexMap<u64, Attachment>) -> (r: Vec<Attachment>)
    ensures
        r@ == attachment_entries(*m).map_values(|e: (u64, Attachment)| e.1),
{
    m.values().cloned().collect()
}

/// `rand::random`: a random id.
#[verifier::external_body]
fn random_id() -> (r: u64) {
    rand::random()
}

/// The attachments of a draft.
pub struct AttachmentController {
    attachments: IndexMap<u64, Attachment>,
}

impl View for AttachmentController {
    type V = Seq<(u64, Attachment)>;

    closed spec fn view(&self) -> Seq<(u64, Attachment)> {
        attachment_entries(self.attachments)
    }
}

pub open spec fn spoiler_prefix() -> Seq<char> {
    "SPOILER_"@
}

/// A file name as attached: without a leading "SPOILER_", which marks the
/// file as a spoiler.
pub open spec fn split_spoiler(name: Seq<char>) -> (Seq<char>, bool) {
    if name.len() >= 8 && name.take(8) == spoiler_prefix() {
        (name.skip(8), true)
    } else {
        (name, false)
    }
}

/// The name a file is uploaded under: "SPOILER_" and its name for a
/// spoiler, else its name.
pub open spec fn upload_name_of(filename: Seq<char>, spoiler: bool) -> Seq<char> {
    if spoiler {
        spoiler_prefix() + filename
    } else {
        filename
    }
}

/// Splits a leading "SPOILER_" off a file name.
pub fn strip_spoiler(name: String) -> (r: (String, bool))
    ensures
        (r.0@, r.1) == split_spoiler(name@),
{
    let v = chars_of(name.as_str());
    let p = chars_of("SPOILER_");
    proof {
        reveal_strlit("SPOILER_");
    }
    assert(p@ =~= spoiler_prefix());
    if v.len() < 8 {
        return (name, false);
    }
    let mut i: usize = 0;
    while i < 8
        invariant
            0 <= i <= 8,
            v.len() >= 8,
            v@ == name@,
            p@ == spoiler_prefix(),
            p.len() == 8,
            forall|j: int| 0 <= j < i ==> v@[j] == p@[j],
        decreases 8 - i,
    {
        if v[i] != p[i] {
            assert(v@.take(8)[i as int] != spoiler_prefix()[i as int]);
            return (name, false);
        }
        i = i + 1;
    }
    assert(v@.take(8) =~= spoiler_prefix());
    let mut rest: Vec<char> = Vec::new();
    let mut k: usize = 8;
    while k < v.len()
        invariant
            8 <= k <= v.len(),
            rest@ == v@.subrange(8, k as int),
        decreases v.len() - k,
    {
        rest.push(v[k]);
        assert(v@.subrange(8, k + 1) =~= v@.subrange(8, k as int).push(v@[k as int]));
        k = k + 1;
    }
    assert(rest@ =~= name@.skip(8));
    (string_of(&rest), true)
}

/// The name an attachment is uploaded under (see `upload_name_of`).
pub fn upload_name(a: &Attachment) -> (r: String)
    ensures
        r@ == upload_name_of(a.filename@, a.spoiler),
{
    let mut v: Vec<char> = Vec::new();
    if a.spoiler {
        push_str_chars(&mut v, "SPOILER_");
    }
    push_str_chars(&mut v, a.filename.as_str());
    string_of(&v)
}

impl AttachmentController {
    #[verifier::type_invariant]
    spec fn distinct(self) -> bool {
        keys_distinct(attachment_entries(self.attachments))
    }

    pub fn new() -> (r: Self)
        ensures
            r@ == Seq::<(u64, Attachment)>::empty(),
    {
        AttachmentController { attachments: map_new() }
    }

    pub fn is_empty(&self) -> (r: bool)
        ensures
            r == (self@.len() == 0),
    {
        map_len(&self.attachments) == 0
    }

    pub fn not_empty(&self) -> (r: bool)
        ensures
            r == (self@.len() > 0),
    {
        !self.is_empty()
    }

    /// The attachments, in the order they were added.
    pub fn get_attachments(&self) -> (r: Vec<Attachment>)
        ensures
            r@ == self@.map_values(|e: (u64, Attachment)| e.1),
    {
        map_values_cloned(&self.attachments)
    }

    /// Drops the attachment with `id`; the others keep their order.
    pub fn remove(&mut self, id: u64)
        ensures
            match key_index(old(self)@, id) {
                Some(i) => final(self)@ == old(self)@.remove(i),
                None => final(self)@ == old(self)@,
            },
            keys_distinct(final(self)@),
    {
        proof {
            use_type_invariant(&*self);
        }
        let mut m = map_new();
        std::mem::swap(&mut m, &mut self.attachments);
        let ghost before = attachment_entries(m);
        let _ = map_shift_remove(&mut m, id);
        proof {
            assert forall|i: int, j: int|
                0 <= i < j < attachment_entries(m).len() implies #[trigger] attachment_entries(m)[i].0
                != #[trigger] attachment_entries(m)[j].0 by {
                match key_index(before, id) {
                    Some(x) => {
                        let a = if i < x { i } else { i + 1 };
                        let b = if j < x { j } else { j + 1 };
                        assert(attachment_entries(m)[i] == before[a]);
                        assert(attachment_entries(m)[j] == before[b]);
                    },
                    None => {},
                }
            }
        }
        self.attachments = m;
        proof {
            use_type_invariant(&*self);
        }
    }

    /// Empties the draft's attachments and gives them, in order.
    pub fn take(&mut self) -> (r: IndexMap<u64, Attachment>)
        ensures
            attachment_entries(r) == old(self)@,
            final(self)@ == Seq::<(u64, Attachment)>::empty(),
    {
        let mut m = map_new();
        std::mem::swap(&mut m, &mut self.attachments);
        m
    }

    /// Flips whether the attachment with `id` is a spoiler; it keeps its
    /// place. Without such an attachment nothing changes.
    pub fn toggle_spoiler(&mut self, id: u64)
        ensures
            final(self)@ == spoiler_flipped(old(self)@, id),
            keys_distinct(final(self)@),
    {
        proof {
            use_type_invariant(&*self);
        }
        if map_get(&self.attachments, id).is_none() {
            proof {
                use_type_invariant(&*self);
            }
            return;
        }
        let mut m = map_new();
        std::mem::swap(&mut m, &mut self.attachments);
        let ghost before = attachment_entries(m);
        let ghost x = key_index(before, id).unwrap();
        let placeholder = Attachment { id, filename: String::new(), spoiler: false, contents: Vec::new() };
        let taken = map_insert(&mut m, id, placeholder);
        let mut a = taken.unwrap();
        a.spoiler = !a.spoiler;
        let ghost mid = attachment_entries(m);
        assert(key_index(mid, id) is Some) by {
            assert(mid[x].0 == id);
        }
        let _ = map_insert(&mut m, id, a);
        proof {
            let y = key_index(mid, id).unwrap();
            assert(mid[y].0 == id);
            if y != x {
                assert(mid[y] == before[y]);
            }
            assert(y == x);
            assert(attachment_entries(m) =~= before.update(
                x,
                (id, Attachment { spoiler: !before[x].1.spoiler, ..before[x].1 }),
            ));
            assert forall|i: int, j: int|
                0 <= i < j < attachment_entries(m).len() implies #[trigger] attachment_entries(m)[i].0
                != #[trigger] attachment_entries(m)[j].0 by {
                if i != x && j != x {
                    assert(attachment_entries(m)[i] == before[i]);
                    assert(attachment_entries(m)[j] == before[j]);
                } else if i == x {
                    assert(attachment_entries(m)[j] == before[j]);
                } else {
                    assert(attachment_entries(m)[i] == before[i]);
                }
            }
        }
        self.attachments = m;
        proof {
            use_type_invariant(&*self);
        }
    }

    /// Attaches a picked file under a random id; a leading "SPOILER_" in its
    /// name marks it as a spoiler and is dropped. Should the id be taken
    /// already, that attachment is replaced in its place.
    pub fn add_file(&mut self, filename: String, contents: Vec<u8>)
        ensures
            exists|id: u64, a: Attachment|
                #![trigger inserted(old(self)@, id, a)]
                final(self)@ == inserted(old(self)@, id, a) && a.id == id && (a.filename@, a.spoiler)
                    == split_spoiler(filename@) && a.contents == contents,
            keys_distinct(final(self)@),
    {
        let id = random_id();
        self.add_file_with_id(id, filename, contents);
    }

    /// Attaches a picked file under the given id; a leading "SPOILER_" in
    /// its name marks it as a spoiler and is dropped. A new id goes last; an
    /// id that is taken already has its attachment replaced in its place.
    pub fn add_file_with_id(&mut self, id: u64, filename: String, contents: Vec<u8>)
        ensures
            exists|a: Attachment|
                #![trigger inserted(old(self)@, id, a)]
                final(self)@ == inserted(old(self)@, id, a) && a.id == id && (a.filename@, a.spoiler)
                    == split_spoiler(filename@) && a.contents == contents,
            keys_distinct(final(self)@),
    {
        proof {
            use_type_invariant(&*self);
        }
        let (name, spoiler) = strip_spoiler(filename);
        let a = Attachment { id, filename: name, spoiler, contents };
        let ghost a_spec = a;
        let mut m = map_new();
        std::mem::swap(&mut m, &mut self.attachments);
        let ghost before = attachment_entries(m);
        let _ = map_insert(&mut m, id, a);
        proof {
            assert forall|i: int, j: int|
                0 <= i < j < attachment_entries(m).len() implies #[trigger] attachment_entries(m)[i].0
                != #[trigger] attachment_entries(m)[j].0 by {
                match key_index(before, id) {
                    Some(x) => {
                        if i != x && j != x {
                            assert(attachment_entries(m)[i] == before[i]);
                            assert(attachment_entries(m)[j] == before[j]);
                        } else if i == x {
                            assert(attachment_entries(m)[j] == before[j]);
                        } else {
                            assert(attachment_entries(m)[i] == before[i]);
                        }
                    },
                    None => {
                        if j == before.len() {
                            assert(attachment_entries(m)[i] == before[i]);
                            assert(before[i].0 != id);
                        } else {
                            assert(attachment_entries(m)[i] == before[i]);
                            assert(attachment_entries(m)[j] == before[j]);
                        }
                    },
                }
            }
            assert(attachment_entries(m) == inserted(before, id, a_spec));
        }
        self.attachments = m;
        proof {
            use_type_invariant(&*self);
        }
        assert(self@ == inserted(old(self)@, id, a_spec));
    }
}

} // verus!
