//! The lookup database: two indices built once from flat text datasets —
//! one keyed by extension, one by content type — and the three queries
//! they answer.

use vstd::prelude::*;

use crate::record::Info;
use crate::record::InfoView;
use crate::record::opt_view;
use crate::record::parsed;
use crate::table::Table;
use crate::text::extension_of;
use crate::text::file_ext;
use crate::text::lowered;
use crate::text::views_of;

verus! {

/// The extension index that a dataset builds: every line with at least
/// three tokens binds its first token (the extension) to its record, a
/// later line overriding an earlier one with the same key.
pub open spec fn extension_table(lines: Seq<Seq<char>>) -> Map<Seq<char>, InfoView>
    decreases lines.len(),
{
    if lines.len() == 0 {
        Map::empty()
    } else {
        let m = extension_table(lines.drop_last());
        match parsed(lines.last()) {
            Some(iv) => m.insert(iv.extension, iv),
            None => m,
        }
    }
}

/// The content-type index that a dataset builds: as `extension_table`,
/// but each record is keyed by its second token, the content type.
pub open spec fn content_type_table(lines: Seq<Seq<char>>) -> Map<Seq<char>, InfoView>
    decreases lines.len(),
{
    if lines.len() == 0 {
        Map::empty()
    } else {
        let m = content_type_table(lines.drop_last());
        match parsed(lines.last()) {
            Some(iv) => m.insert(iv.content_type, iv),
            None => m,
        }
    }
}

/// What an extension lookup returns: the record under the key itself
/// when present, otherwise the record under its ASCII-lowercased form,
/// otherwise nothing.
pub open spec fn extension_query(m: Map<Seq<char>, InfoView>, e: Seq<char>) -> Option<InfoView> {
    if m.contains_key(e) {
        Some(m[e])
    } else if m.contains_key(lowered(e)) {
        Some(m[lowered(e)])
    } else {
        None
    }
}

/// What a content-type lookup returns: the record under the key, by
/// exact match only.
pub open spec fn content_type_query(m: Map<Seq<char>, InfoView>, k: Seq<char>) -> Option<
    InfoView,
> {
    if m.contains_key(k) {
        Some(m[k])
    } else {
        None
    }
}

/// What a filename lookup returns: the extension query for the
/// filename's extension, or nothing when it has none.
pub open spec fn filename_query(m: Map<Seq<char>, InfoView>, f: Seq<char>) -> Option<InfoView> {
    match file_ext(f) {
        Some(e) => extension_query(m, e),
        None => None,
    }
}

/// The in-memory MIME database: an index by extension and an index by
/// content type, read-only once constructed. Every lookup takes a shared
/// reference and mutates nothing, so a constructed database can serve
/// any number of concurrent readers without locking.
pub struct Db {
    ext_db: Table,
    content_type_db: Table,
}

fn load_extension_table(lines: &Vec<String>) -> (t: Table)
    ensures
        t.wf(),
        t@ == extension_table(views_of(lines@)),
{
    let ghost vs = views_of(lines@);
    let mut t = Table::new();
    let n = lines.len();
    let mut i: usize = 0;
    proof {
        assert(vs.take(0) =~= Seq::empty());
    }
    while i < n
        invariant
            n == lines@.len(),
            i <= n,
            t.wf(),
            vs == views_of(lines@),
            t@ == extension_table(vs.take(i as int)),
        decreases n - i,
    {
        proof {
            assert(vs.take(i as int + 1).drop_last() =~= vs.take(i as int));
            assert(vs.take(i as int + 1).last() == lines@[i as int]@);
        }
        match Info::new(lines[i].as_str()) {
            Some(info) => {
                let key = info.extension.clone();
                t.insert(key, info);
            },
            None => {},
        }
        i += 1;
    }
    proof {
        assert(vs.take(n as int) =~= vs);
    }
    t
}

fn load_content_type_table(lines: &Vec<String>) -> (t: Table)
    ensures
        t.wf(),
        t@ == content_type_table(views_of(lines@)),
{
    let ghost vs = views_of(lines@);
    let mut t = Table::new();
    let n = lines.len();
    let mut i: usize = 0;
    proof {
        assert(vs.take(0) =~= Seq::empty());
    }
    while i < n
        invariant
            n == lines@.len(),
            i <= n,
            t.wf(),
            vs == views_of(lines@),
            t@ == content_type_table(vs.take(i as int)),
        decreases n - i,
    {
        proof {
            assert(vs.take(i as int + 1).drop_last() =~= vs.take(i as int));
            assert(vs.take(i as int + 1).last() == lines@[i as int]@);
        }
        match Info::new(lines[i].as_str()) {
            Some(info) => {
                let key = info.content_type.clone();
                t.insert(key, info);
            },
            None => {},
        }
        i += 1;
    }
    proof {
        assert(vs.take(n as int) =~= vs);
    }
    t
}

impl Db {
    #[verifier::type_invariant]
    spec fn wf(&self) -> bool {
        self.ext_db.wf() && self.content_type_db.wf()
    }

    /// The extension index, as a map from extension to record.
    pub closed spec fn extension_index(&self) -> Map<Seq<char>, InfoView> {
        self.ext_db@
    }

    /// The content-type index, as a map from content type to record.
    pub closed spec fn content_type_index(&self) -> Map<Seq<char>, InfoView> {
        self.content_type_db@
    }

    /// Builds the database from its two datasets, one line per record.
    /// Every line of `extension_lines` with at least three tokens is
    /// indexed by its extension, every such line of
    /// `content_type_lines` by its content type; a later line overrides
    /// an earlier one with the same key, and shorter lines are skipped
    /// silently.
    pub fn new(extension_lines: &Vec<String>, content_type_lines: &Vec<String>) -> (db: Db)
        ensures
            db.extension_index() == extension_table(views_of(extension_lines@)),
            db.content_type_index() == content_type_table(views_of(content_type_lines@)),
    {
        let ext_db = load_extension_table(extension_lines);
        let content_type_db = load_content_type_table(content_type_lines);
        Db { ext_db, content_type_db }
    }

    /// Looks a record up by file extension: by the exact extension
    /// first, then by its ASCII-lowercased form.
    pub fn lookup_by_extension<'a>(&'a self, extension: &str) -> (r: Option<&'a Info>)
        ensures
            opt_view(r) == extension_query(self.extension_index(), extension@),
    {
        proof {
            use_type_invariant(&*self);
        }
        let q: String = extension.to_owned();
        match self.ext_db.get(&q) {
            Some(info) => Some(info),
            None => self.ext_db.get_lowered(extension),
        }
    }

    /// Looks a record up by content type, by exact match only.
    pub fn lookup_by_content_type<'a>(&'a self, content_type: &str) -> (r: Option<&'a Info>)
        ensures
            opt_view(r) == content_type_query(self.content_type_index(), content_type@),
    {
        proof {
            use_type_invariant(&*self);
        }
        let q: String = content_type.to_owned();
        self.content_type_db.get(&q)
    }

    /// Looks a record up by filename: extracts the extension after the
    /// last dot of the last path component and delegates to the
    /// extension lookup; a filename without an extension finds nothing.
    pub fn lookup_by_filename<'a>(&'a self, filename: &str) -> (r: Option<&'a Info>)
        ensures
            opt_view(r) == filename_query(self.extension_index(), filename@),
    {
        match extension_of(filename) {
            Some(e) => self.lookup_by_extension(e),
            None => None,
        }
    }
}

fn copy_info(info: &Info) -> (r: Info)
    ensures
        r@ == info@,
{
    Info {
        extension: info.extension.clone(),
        content_type: info.content_type.clone(),
        encoding: info.encoding.clone(),
    }
}

/// Looks a record up by filename and returns an independent copy.
pub fn lookup_by_filename(db: &Db, filename: &str) -> (r: Option<Info>)
    ensures
        opt_view(r) == filename_query(db.extension_index(), filename@),
{
    match db.lookup_by_filename(filename) {
        Some(info) => Some(copy_info(info)),
        None => None,
    }
}

/// Looks a record up by extension and returns an independent copy.
pub fn lookup_by_extension(db: &Db, extension: &str) -> (r: Option<Info>)
    ensures
        opt_view(r) == extension_query(db.extension_index(), extension@),
{
    match db.lookup_by_extension(extension) {
        Some(info) => Some(copy_info(info)),
        None => None,
    }
}

/// Looks a record up by content type and returns an independent copy.
pub fn lookup_by_content_type(db: &Db, content_type: &str) -> (r: Option<Info>)
    ensures
        opt_view(r) == content_type_query(db.content_type_index(), content_type@),
{
    match db.lookup_by_content_type(content_type) {
        Some(info) => Some(copy_info(info)),
        None => None,
    }
}

} // verus!
