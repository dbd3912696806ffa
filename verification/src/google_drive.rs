use vstd::prelude::*;
use vstd::string::StringExecFns;

verus! {

/// The type tag by which the remote service marks a container.
pub const FOLDER_MIME: &'static str = "application/vnd.google-apps.folder";

/// A directory and a name below it, as one path.
pub open spec fn join(dir: Seq<char>, name: Seq<char>) -> Seq<char> {
    dir + seq!['/'] + name
}

/// The mathematical model of one node of the remote hierarchy.
pub ghost struct Entry {
    pub id: Seq<char>,
    pub title: Seq<char>,
    pub mime_type: Seq<char>,
    pub checksum: Option<Seq<char>>,
    pub download_url: Option<Seq<char>>,
    pub file_size: Option<Seq<char>>,
    pub children: Option<Seq<Entry>>,
    pub path: Option<Seq<char>>,
}

impl Entry {
    /// A container holds children; everything else is a leaf with content.
    pub open spec fn is_folder(self) -> bool {
        self.mime_type == FOLDER_MIME@
    }

    /// Where the entry itself goes: its title below its local path. For a
    /// leaf this is the file to write, for a container the directory that
    /// holds its children.
    pub open spec fn destination(self) -> Seq<char>
        recommends
            self.path is Some,
    {
        join(self.path->0, self.title)
    }

    /// Every entry that a walk can reach has a local path: the entry
    /// itself and, below a container, each of its children.
    pub open spec fn placed(self) -> bool
        decreases self,
    {
        &&& self.path is Some
        &&& self.is_folder() ==> match self.children {
            Some(c) => forall|i: int| 0 <= i < c.len() ==> (#[trigger] c[i]).placed(),
            None => true,
        }
    }

    /// The tree is resolved below the directory `dir`: the entry's local
    /// path is `dir`, and a container has its children listed, each of them
    /// resolved below the container's own destination.
    pub open spec fn resolved_in(self, dir: Seq<char>) -> bool
        decreases self,
    {
        &&& self.path == Some(dir)
        &&& self.is_folder() ==> match self.children {
            Some(c) => forall|i: int|
                0 <= i < c.len() ==> (#[trigger] c[i]).resolved_in(join(dir, self.title)),
            None => false,
        }
    }

    /// The entry with `dir` as its local path.
    pub open spec fn put_in(self, dir: Seq<char>) -> Entry {
        Entry { path: Some(dir), ..self }
    }

    /// The entry with `children` listed below it.
    pub open spec fn holding(self, children: Seq<Entry>) -> Entry {
        Entry { children: Some(children), ..self }
    }
}

/// One node of the remote hierarchy: a container or a leaf.
#[allow(non_snake_case)]
#[derive(Debug)]
pub struct GoogleItem {
    pub id: String,
    pub title: String,
    pub mimeType: String,
    pub md5Checksum: Option<String>,
    pub downloadUrl: Option<String>,
    pub fileSize: Option<String>,
    pub children: Option<Vec<GoogleItem>>,
    pub path: Option<String>,
}

/// The characters of a text that may be missing.
pub open spec fn text_of(s: Option<String>) -> Option<Seq<char>> {
    match s {
        Some(t) => Some(t@),
        None => None,
    }
}

impl View for GoogleItem {
    type V = Entry;

    open spec fn view(&self) -> Entry
        decreases self,
    {
        Entry {
            id: self.id@,
            title: self.title@,
            mime_type: self.mimeType@,
            checksum: text_of(self.md5Checksum),
            download_url: text_of(self.downloadUrl),
            file_size: text_of(self.fileSize),
            children: match self.children {
                Some(c) => Some(entries_of(c@)),
                None => None,
            },
            path: text_of(self.path),
        }
    }
}

/// The models of a run of items, in order.
pub open spec fn entries_of(items: Seq<GoogleItem>) -> Seq<Entry>
    decreases items,
{
    Seq::new(
        items.len(),
        |i: int|
            if 0 <= i < items.len() {
                items[i]@
            } else {
                arbitrary()
            },
    )
}

/// A container's model lists the models of its children, in order.
pub proof fn children_shown(item: GoogleItem)
    ensures
        item.children is Some ==> item@.children == Some(entries_of(item.children->0@)),
        item.children is None ==> item@.children is None,
        item@.path == text_of(item.path),
        item@.title == item.title@,
        item@.id == item.id@,
        item@.mime_type == item.mimeType@,
        item@.checksum == text_of(item.md5Checksum),
        item@.download_url == text_of(item.downloadUrl),
        item@.file_size == text_of(item.fileSize),
{
}

/// A resolved tree is placed.
pub proof fn resolved_is_placed(e: Entry, dir: Seq<char>)
    requires
        e.resolved_in(dir),
    ensures
        e.placed(),
    decreases e,
{
    if e.is_folder() {
        let c = e.children->0;
        assert forall|i: int| 0 <= i < c.len() implies (#[trigger] c[i]).placed() by {
            resolved_is_placed(c[i], join(dir, e.title));
        }
    }
}

/// Copies a text that may be missing.
pub fn copy_text(s: &Option<String>) -> (r: Option<String>)
    ensures
        text_of(r) == text_of(*s),
{
    match s {
        Some(t) => Some(t.clone()),
        None => None,
    }
}

/// An ordered collection of entries: a listing, a resolved tree, or the
/// leaves a dry run would fetch.
#[derive(Debug)]
pub struct GooglePage {
    pub items: Vec<GoogleItem>,
}

impl View for GooglePage {
    type V = Seq<Entry>;

    open spec fn view(&self) -> Seq<Entry> {
        entries_of(self.items@)
    }
}

/// The titles of some entries, in order, with a comma and a blank between
/// one and the next.
pub open spec fn titles_joined(entries: Seq<Entry>) -> Seq<char>
    decreases entries.len(),
{
    if entries.len() == 0 {
        Seq::empty()
    } else if entries.len() == 1 {
        entries[0].title
    } else {
        titles_joined(entries.drop_last()) + seq![',', ' '] + entries.last().title
    }
}

/// A collection as it is shown: the titles of its entries in brackets.
pub open spec fn page_text(entries: Seq<Entry>) -> Seq<char> {
    seq!['['] + titles_joined(entries) + seq![']']
}

impl GooglePage {
    /// How many entries the collection holds at its top level.
    pub fn len(&self) -> (n: usize)
        ensures
            n == self@.len(),
    {
        self.items.len()
    }

    /// Whether every entry that a walk over the collection can reach has a
    /// local path.
    pub fn is_placed(&self) -> (placed: bool)
        ensures
            placed == each_placed(self@),
    {
        all_placed(&self.items)
    }

    /// The collection as it is shown: the titles of its entries, in order,
    /// in brackets and with commas between them.
    pub fn to_text(&self) -> (text: String)
        ensures
            text@ == page_text(self@),
    {
        let ghost page = self@;
        let mut text = String::from_str("[");
        proof {
            reveal_strlit("[");
            reveal_strlit("]");
            reveal_strlit(", ");
            assert("["@ =~= seq!['[']);
            assert("]"@ =~= seq![']']);
            assert(", "@ =~= seq![',', ' ']);
            assert(page.take(0) =~= Seq::<Entry>::empty());
            assert(text@ =~= seq!['['] + titles_joined(page.take(0)));
        }
        let mut i: usize = 0;
        while i < self.items.len()
            invariant
                i <= self.items.len(),
                page == self@,
                page.len() == self.items@.len(),
                ", "@ == seq![',', ' '],
                text@ == seq!['['] + titles_joined(page.take(i as int)),
            decreases self.items.len() - i,
        {
            let item = &self.items[i];
            proof {
                children_shown(*item);
                assert(page[i as int] == item@);
                assert(page.take(i + 1).drop_last() =~= page.take(i as int));
                assert(page.take(i + 1).last() == page[i as int]);
                assert(page.take(i + 1)[0] == page[0]);
            }
            if i > 0 {
                text.append(", ");
            }
            text.append(item.title.as_str());
            i += 1;
            proof {
                assert(text@ =~= seq!['['] + titles_joined(page.take(i as int)));
            }
        }
        text.append("]");
        proof {
            assert(page.take(i as int) =~= page);
        }
        text
    }
}

/// Joins a directory and a name with a slash.
pub fn join_path(dir: &str, name: &str) -> (path: String)
    ensures
        path@ == join(dir@, name@),
{
    let mut path = String::from_str(dir);
    path.append("/");
    path.append(name);
    proof {
        reveal_strlit("/");
        assert("/"@ =~= seq!['/']);
    }
    path
}

impl GoogleItem {
    /// Whether the entry is a container.
    pub fn is_folder(&self) -> (folder: bool)
        ensures
            folder == self@.is_folder(),
    {
        let tag = String::from_str(FOLDER_MIME);
        self.mimeType == tag
    }

    /// Whether every entry that a walk can reach has a local path.
    pub fn is_placed(&self) -> (placed: bool)
        ensures
            placed == self@.placed(),
        decreases self, 0nat,
    {
        proof {
            children_shown(*self);
        }
        if self.path.is_none() {
            return false;
        }
        if !self.is_folder() {
            return true;
        }
        match &self.children {
            Some(c) => {
                proof {
                    assert(decreases_to!(self => self.children->0));
                    assert(self@.placed() == each_placed(self@.children->0));
                }
                all_placed(c)
            },
            None => true,
        }
    }

    /// A copy of the entry with everything below it.
    pub fn duplicate(&self) -> (r: GoogleItem)
        ensures
            r@ == self@,
        decreases self, 0nat,
    {
        let children = match &self.children {
            Some(c) => {
                proof {
                    assert(decreases_to!(self => self.children->0));
                }
                Some(duplicate_all(c))
            },
            None => None,
        };
        GoogleItem {
            id: self.id.clone(),
            title: self.title.clone(),
            mimeType: self.mimeType.clone(),
            md5Checksum: copy_text(&self.md5Checksum),
            downloadUrl: copy_text(&self.downloadUrl),
            fileSize: copy_text(&self.fileSize),
            children,
            path: copy_text(&self.path),
        }
    }
}

/// Every one of the entries is placed.
pub open spec fn each_placed(entries: Seq<Entry>) -> bool {
    forall|i: int| 0 <= i < entries.len() ==> (#[trigger] entries[i]).placed()
}

/// Whether every entry that a walk over `items` can reach has a local path.
pub fn all_placed(items: &Vec<GoogleItem>) -> (placed: bool)
    ensures
        placed == each_placed(entries_of(items@)),
    decreases items, 1nat,
{
    let mut i: usize = 0;
    while i < items.len()
        invariant
            i <= items.len(),
            each_placed(entries_of(items@).take(i as int)),
        decreases items.len() - i,
    {
        proof {
            assert(decreases_to!(*items => items[i as int]));
            assert(entries_of(items@)[i as int] == items@[i as int]@);
        }
        if !items[i].is_placed() {
            return false;
        }
        i += 1;
        proof {
            let all = entries_of(items@);
            assert forall|j: int| 0 <= j < i implies (#[trigger] all.take(i as int)[j]).placed() by {
                if j < i - 1 {
                    assert(all.take(i - 1)[j].placed());
                }
            }
        }
    }
    proof {
        assert(entries_of(items@).take(i as int) =~= entries_of(items@));
    }
    true
}

/// Copies a run of items, keeping order and content.
pub fn duplicate_all(items: &Vec<GoogleItem>) -> (r: Vec<GoogleItem>)
    ensures
        entries_of(r@) == entries_of(items@),
    decreases items, 1nat,
{
    let mut out: Vec<GoogleItem> = Vec::new();
    let mut i: usize = 0;
    while i < items.len()
        invariant
            i <= items.len(),
            out@.len() == i,
            forall|j: int| 0 <= j < i ==> (#[trigger] out@[j])@ == items@[j]@,
        decreases items.len() - i,
    {
        proof {
            assert(decreases_to!(*items => items[i as int]));
        }
        out.push(items[i].duplicate());
        i += 1;
    }
    proof {
        assert(entries_of(out@) =~= entries_of(items@));
    }
    out
}

} // verus!
