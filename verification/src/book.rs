//! The book façade: opening an archive or an unpacked directory, locating
//! the package document through the container index, parsing it, loading
//! the table of contents named by the manifest under the fixed ids `nav`
//! and `ncx`, and handing out chapters and raw resources. The book owns its
//! storage backend for its whole lifetime.

use vstd::prelude::*;

use crate::chapter::Chapter;
use crate::container::{Container, ContainerV};
use crate::content::{spec_base_url, spec_content_bytes, Content, ContentV};
use crate::error::{EpubError, ErrV};
use crate::nav::{Navigation, NavigationV};
use crate::package::{manifest_lookup, spec_meta_title, spec_package_bytes, Package, PackageV};
use crate::reader::{zip_valid, Reader};
use crate::text::str_starts_with;

verus! {

/// Joining a name onto a directory prefix: the name alone where the prefix
/// is empty or the name is absolute, else the two around a separator.
pub open spec fn spec_path_join(prefix: Seq<char>, name: Seq<char>) -> Seq<char> {
    if prefix.len() == 0 {
        name
    } else if name.len() > 0 && name[0] == '/' {
        name
    } else {
        prefix + "/"@ + name
    }
}

/// As [`spec_path_join`], executably.
pub fn join_path(prefix: &str, name: &str) -> (r: String)
    ensures
        r@ == spec_path_join(prefix@, name@),
{
    if prefix.unicode_len() == 0 {
        return String::from_str(name);
    }
    if str_starts_with(name, "/") {
        proof {
            reveal_strlit("/");
        }
        return String::from_str(name);
    }
    let r = String::from_str(prefix).concat("/").concat(name);
    proof {
        if name@.len() > 0 && name@[0] == '/' {
            reveal_strlit("/");
            assert(crate::text::spec_starts_with(name@, "/"@));
        }
    }
    r
}

/// The mathematical shape of an opened book.
pub struct BookV {
    pub container: ContainerV,
    pub package: PackageV,
    pub nav: Option<NavigationV>,
    pub rootdir: Seq<char>,
}

/// The package path a backend's container names: the first root file of a
/// container index that fetches and parses. `fetch` is what the backend
/// yields for each path.
pub open spec fn spec_opf_path_via(fetch: spec_fn(Seq<char>) -> Option<Seq<u8>>) -> Option<
    Seq<char>,
> {
    match fetch("META-INF/container.xml"@) {
        None => None,
        Some(cb) => match crate::container::spec_container_bytes(cb) {
            Err(_) => None,
            Ok(c) => if c.root_files.len() > 0 {
                Some(c.root_files[0].full_path)
            } else {
                None
            },
        },
    }
}

/// The table-of-contents source the manifest names: the entry with id
/// `nav` first, the entry with id `ncx` second; the flag says which
/// dialect. A book whose source uses other ids has no navigation.
pub open spec fn spec_nav_choice(pk: PackageV, rootdir: Seq<char>) -> Option<(Seq<char>, bool)> {
    match manifest_lookup(pk.manifest, "nav"@) {
        Some(it) => Some((spec_path_join(rootdir, it.href), true)),
        None => match manifest_lookup(pk.manifest, "ncx"@) {
            Some(it) => Some((spec_path_join(rootdir, it.href), false)),
            None => None,
        },
    }
}

/// An opened book's parts are exactly what the fetched bytes parse to.
pub open spec fn spec_open_ok_via(fetch: spec_fn(Seq<char>) -> Option<Seq<u8>>, b: BookV) -> bool {
    &&& fetch("META-INF/container.xml"@) matches Some(cb)
    &&& crate::container::spec_container_bytes(fetch("META-INF/container.xml"@)->0) == Ok::<
        _,
        ErrV,
    >(b.container)
    &&& b.container.root_files.len() > 0
    &&& {
        let p = b.container.root_files[0].full_path;
        &&& fetch(p) matches Some(pb)
        &&& spec_package_bytes(p, fetch(p)->0) == Ok::<_, ErrV>(b.package)
        &&& b.rootdir == spec_base_url(p)
        &&& match spec_nav_choice(b.package, b.rootdir) {
            None => b.nav is None,
            Some((np, is_nav)) => {
                &&& fetch(np) matches Some(nb)
                &&& b.nav matches Some(nv)
                &&& (if is_nav {
                    crate::navigation::spec_navdoc_bytes(fetch(np)->0) == Ok::<_, ErrV>(nv)
                } else {
                    crate::ncx::spec_ncx_bytes(fetch(np)->0) == Ok::<_, ErrV>(nv)
                })
            },
        }
    }
}

/// As [`spec_open_ok_via`], for a backend value.
pub open spec fn spec_open_ok(rdr: Reader, b: BookV) -> bool {
    spec_open_ok_via(|p: Seq<char>| rdr.fetch_spec(p), b)
}

/// The ways opening fails, each with the error it surfaces. A failed fetch
/// carries the backend's own error: a reader error, except for the
/// directory backend's missing container index, which is a container
/// error; `zip_backend` says which backend fetches.
pub open spec fn spec_open_fails_with_via(
    fetch: spec_fn(Seq<char>) -> Option<Seq<u8>>,
    zip_backend: bool,
    e: ErrV,
) -> bool {
    ||| (fetch("META-INF/container.xml"@) is None && (if zip_backend {
        e matches ErrV::Reader(_)
    } else {
        e matches ErrV::Container(_)
    }))
    ||| (fetch("META-INF/container.xml"@) matches Some(cb)
        && crate::container::spec_container_bytes(cb) == Err::<ContainerV, _>(e))
    ||| (fetch("META-INF/container.xml"@) matches Some(cb)
        && (crate::container::spec_container_bytes(cb) matches Ok(c) && c.root_files.len() == 0
        && e == ErrV::Reader("full path not exists"@)))
    ||| (spec_opf_path_via(fetch) matches Some(p) && fetch(p) is None && e matches ErrV::Reader(
        _,
    ))
    ||| (spec_opf_path_via(fetch) matches Some(p) && (fetch(p) matches Some(pb)
        && spec_package_bytes(p, pb) == Err::<PackageV, _>(e)))
    ||| (spec_opf_path_via(fetch) matches Some(p) && (fetch(p) matches Some(pb)
        && (spec_package_bytes(p, pb) matches Ok(pk) && (spec_nav_choice(
        pk,
        spec_base_url(p),
    ) matches Some(choice) && ((fetch(choice.0) is None && e matches ErrV::Reader(_)) || (fetch(
        choice.0,
    ) matches Some(nb) && (if choice.1 {
        crate::navigation::spec_navdoc_bytes(nb) == Err::<NavigationV, _>(e)
    } else {
        crate::ncx::spec_ncx_bytes(nb) == Err::<NavigationV, _>(e)
    })))))))
}

/// As [`spec_open_fails_with_via`], for a backend value.
pub open spec fn spec_open_fails_with(rdr: Reader, e: ErrV) -> bool {
    spec_open_fails_with_via(
        |p: Seq<char>| rdr.fetch_spec(p),
        rdr matches Reader::Zip(_),
        e,
    )
}

/// An opened book: the backend it owns, the parsed container and package,
/// the table of contents where one was found, and the package directory.
#[derive(Debug)]
pub struct Book {
    reader: Reader,
    container: Container,
    package: Package,
    nav: Option<Navigation>,
    rootdir: String,
}

impl View for Book {
    type V = BookV;

    closed spec fn view(&self) -> BookV {
        BookV {
            container: self.container@,
            package: self.package@,
            nav: match self.nav {
                Some(n) => Some(n@),
                None => None,
            },
            rootdir: self.rootdir@,
        }
    }
}

impl Book {
    /// The backend this book owns.
    pub closed spec fn rdr(&self) -> Reader {
        self.reader
    }

    fn new_book(reader: Reader) -> (r: Result<Book, EpubError>)
        ensures
            match r {
                Ok(b) => b.rdr() == reader && spec_open_ok(reader, b@),
                Err(e) => spec_open_fails_with(reader, e@),
            },
    {
        let mut reader = reader;
        let container = match reader.read_meta_container() {
            Ok(c) => c,
            Err(e) => {
                return Err(e);
            },
        };
        let fullpath = match container.full_path() {
            Some(p) => p,
            None => {
                return Err(EpubError::ReaderError(String::from_str("full path not exists")));
            },
        };
        let package = match reader.read_package(fullpath.as_str()) {
            Ok(p) => p,
            Err(e) => {
                return Err(e);
            },
        };
        let prefix = crate::content::dir_part(fullpath.as_str());
        let nav = match package.get_manifest("nav") {
            Some(item) => {
                let path = join_path(prefix.as_str(), item.href());
                match reader.read_nav(path.as_str()) {
                    Ok(n) => Some(n),
                    Err(e) => {
                        return Err(e);
                    },
                }
            },
            None => match package.get_manifest("ncx") {
                Some(item) => {
                    let path = join_path(prefix.as_str(), item.href());
                    match reader.read_ncx(path.as_str()) {
                        Ok(n) => Some(n),
                        Err(e) => {
                            return Err(e);
                        },
                    }
                },
                None => None,
            },
        };
        Ok(Book { reader, container, package, nav, rootdir: prefix })
    }

    /// Opens a book from archive bytes already in memory: an archive error
    /// exactly where the bytes are no valid archive, else the open pipeline
    /// over the archive's entries.
    pub fn open_from_memory(buffer: Vec<u8>) -> (r: Result<Book, EpubError>)
        ensures
            match r {
                Ok(b) => zip_valid(buffer@) && (b.rdr() matches Reader::Zip(z) && z.data_spec()
                    == buffer@) && spec_open_ok_via(
                    |p: Seq<char>| crate::reader::zip_entry_of(buffer@, p),
                    b@,
                ),
                Err(e) => (!zip_valid(buffer@) && e matches EpubError::ArchiveError(_)) || (
                zip_valid(buffer@) && spec_open_fails_with_via(
                    |p: Seq<char>| crate::reader::zip_entry_of(buffer@, p),
                    true,
                    e@,
                )),
            },
    {
        let reader = match Reader::new_from_memory(buffer) {
            Ok(rd) => rd,
            Err(e) => {
                return Err(e);
            },
        };
        let ghost rdr = reader;
        proof {
            assert((|p: Seq<char>| rdr.fetch_spec(p)) =~= (|p: Seq<char>|
                crate::reader::zip_entry_of(buffer@, p)));
        }
        Book::new_book(reader)
    }

    /// Opens a book from an unpacked directory tree, each file's
    /// archive-relative path paired with its bytes: the open pipeline over
    /// first-match lookups in that list.
    pub fn open_from_files(files: Vec<(String, Vec<u8>)>) -> (r: Result<Book, EpubError>)
        ensures
            match r {
                Ok(b) => (b.rdr() matches Reader::Dir(d) && d.files_spec() == files@.map_values(
                    |p: (String, Vec<u8>)| crate::reader::file_view(p),
                )) && spec_open_ok_via(
                    |p: Seq<char>| crate::reader::dir_lookup(
                        files@.map_values(|q: (String, Vec<u8>)| crate::reader::file_view(q)),
                        p,
                    ),
                    b@,
                ),
                Err(e) => spec_open_fails_with_via(
                    |p: Seq<char>| crate::reader::dir_lookup(
                        files@.map_values(|q: (String, Vec<u8>)| crate::reader::file_view(q)),
                        p,
                    ),
                    false,
                    e@,
                ),
            },
    {
        let ghost fls = files@.map_values(|q: (String, Vec<u8>)| crate::reader::file_view(q));
        let reader = match Reader::new_from_files(files) {
            Ok(rd) => rd,
            Err(e) => {
                return Err(e);
            },
        };
        let ghost rdr = reader;
        proof {
            assert((|p: Seq<char>| rdr.fetch_spec(p)) =~= (|p: Seq<char>|
                crate::reader::dir_lookup(fls, p)));
        }
        Book::new_book(reader)
    }

    /// The table of contents, where the book has one.
    pub fn nav(&self) -> (r: Option<&Navigation>)
        ensures
            match r {
                Some(n) => self@.nav == Some(n@),
                None => self@.nav is None,
            },
    {
        match &self.nav {
            Some(n) => Some(n),
            None => None,
        }
    }

    /// The parsed package document.
    pub fn package(&self) -> (r: &Package)
        ensures
            r@ == self@.package,
    {
        &self.package
    }

    /// The book's title, from the package metadata.
    pub fn title(&self) -> (r: &str)
        ensures
            r@ == spec_meta_title(self@.package.metadata),
    {
        self.package.title()
    }

    /// Joins a name onto the package directory.
    pub fn resolve_path(&self, name: &str) -> (r: String)
        ensures
            r@ == spec_path_join(self@.rootdir, name@),
    {
        join_path(self.rootdir.as_str(), name)
    }

    /// Fetches and parses the chapter at `path`.
    pub fn content(&mut self, path: &str) -> (r: Result<Content, EpubError>)
        ensures
            *final(self) == *old(self),
            match r {
                Ok(c) => {
                    &&& old(self).rdr().fetch_spec(path@) matches Some(bytes)
                    &&& spec_content_bytes(path@, old(self).rdr().fetch_spec(path@)->0) == Ok::<
                        _,
                        ErrV,
                    >(c@)
                },
                Err(e) => (old(self).rdr().fetch_spec(path@) is None && e
                    matches EpubError::ReaderError(_)) || (old(self).rdr().fetch_spec(path@)
                    matches Some(cb) && spec_content_bytes(path@, cb) == Err::<ContentV, _>(
                    e@,
                )),
            },
    {
        self.reader.read_content(path)
    }

    /// The raw bytes of the resource at `name`, byte for byte; a missing
    /// resource is a reader error naming the path.
    pub fn read_binary_file(&mut self, name: &str) -> (r: Result<Vec<u8>, EpubError>)
        ensures
            *final(self) == *old(self),
            match r {
                Ok(b) => old(self).rdr().fetch_spec(name@) == Some(b@),
                Err(e) => old(self).rdr().fetch_spec(name@) is None && e
                    matches EpubError::ReaderError(_),
            },
    {
        self.reader.read_binary(name)
    }

    /// A fresh chapter iterator, starting at the first spine entry. Each
    /// step borrows the book.
    pub fn chapters(&mut self) -> (r: PageIterator)
        ensures
            *final(self) == *old(self),
            r.current_spec() == 0,
    {
        PageIterator::new()
    }
}

/// The chapter the iterator owes at spine position `k`: its href and its
/// serialized markup, present exactly where the spine entry resolves to a
/// manifest item, its resolved path fetches, and the bytes parse.
pub open spec fn spec_step_content(rdr: Reader, b: BookV, k: int) -> Option<
    (Seq<char>, Seq<char>),
> {
    if !(0 <= k < b.package.spine.len()) {
        None
    } else {
        match manifest_lookup(b.package.manifest, b.package.spine[k].idref) {
            None => None,
            Some(item) => {
                let path = spec_path_join(b.rootdir, item.href);
                match rdr.fetch_spec(path) {
                    None => None,
                    Some(bytes) => match spec_content_bytes(path, bytes) {
                        Err(_) => None,
                        Ok(c) => Some((item.href, crate::xml::spec_markup(c.doc))),
                    },
                }
            },
        }
    }
}

/// Sequential access to the book's chapters in spine order; each step
/// fetches and serializes one chapter through the book.
pub struct PageIterator {
    current_chapter: usize,
}

impl PageIterator {
    /// The next spine position to visit.
    pub closed spec fn current_spec(&self) -> int {
        self.current_chapter as int
    }

    pub fn new() -> (r: PageIterator)
        ensures
            r.current_spec() == 0,
    {
        PageIterator { current_chapter: 0 }
    }

    /// The next chapter: its spine position, href and serialized markup.
    /// A chapter is owed exactly where [`spec_step_content`] yields one at
    /// the cursor; past the end of the spine, at a spine entry naming no
    /// manifest id, or where the chapter cannot be fetched or parsed, the
    /// step yields nothing and the cursor stays.
    pub fn next(&mut self, book: &mut Book) -> (r: Option<Chapter>)
        ensures
            *final(book) == *old(book),
            match r {
                Some(ch) => {
                    &&& final(self).current_spec() == old(self).current_spec() + 1
                    &&& ch@.index == old(self).current_spec()
                    &&& spec_step_content(
                        old(book).rdr(),
                        old(book)@,
                        old(self).current_spec(),
                    ) == Some((ch@.href, ch@.content))
                },
                None => final(self).current_spec() == old(self).current_spec() && (old(
                    self,
                ).current_spec() < u32::MAX ==> spec_step_content(
                    old(book).rdr(),
                    old(book)@,
                    old(self).current_spec(),
                ) is None),
            },
    {
        let ghost k = self.current_spec();
        if self.current_chapter >= u32::MAX as usize {
            return None;
        }
        let item = match book.package.chapter(self.current_chapter as u32) {
            Some(it) => it,
            None => {
                return None;
            },
        };
        let path = book.resolve_path(item.href());
        let content = match book.content(path.as_str()) {
            Ok(c) => c,
            Err(_) => {
                return None;
            },
        };
        let markup = match content.to_string() {
            Ok(s) => s,
            Err(_) => {
                proof {
                    assert(false);
                }
                return None;
            },
        };
        let ch = Chapter::new(self.current_chapter, item.href(), markup);
        proof {
            assert(spec_step_content(book.rdr(), book@, k) == Some((item@.href, markup@)));
        }
        self.current_chapter = self.current_chapter + 1;
        Some(ch)
    }
}

/// Two backends that answer every fetch alike open into books whose
/// container, package, navigation, title and chapter bytes agree: opening
/// the same logical book through an archive and through an equivalent
/// unpacked directory yields the same results.
pub proof fn lemma_backend_independence(r1: Reader, r2: Reader, b1: BookV, b2: BookV)
    requires
        forall|p: Seq<char>| #[trigger] r1.fetch_spec(p) == r2.fetch_spec(p),
        spec_open_ok(r1, b1),
        spec_open_ok(r2, b2),
    ensures
        b1.container == b2.container,
        b1.package == b2.package,
        b1.nav == b2.nav,
        b1.rootdir == b2.rootdir,
        spec_meta_title(b1.package.metadata) == spec_meta_title(b2.package.metadata),
        forall|href: Seq<char>|
            #[trigger] spec_chapter_bytes(r1, href) == spec_chapter_bytes(r2, href),
{
    assert(r1.fetch_spec("META-INF/container.xml"@) == r2.fetch_spec(
        "META-INF/container.xml"@,
    ));
    assert(b1.container == b2.container);
    let p = b1.container.root_files[0].full_path;
    assert(r1.fetch_spec(p) == r2.fetch_spec(p));
    assert(b1.package == b2.package);
    match spec_nav_choice(b1.package, b1.rootdir) {
        None => {
        },
        Some((np, is_nav)) => {
            assert(r1.fetch_spec(np) == r2.fetch_spec(np));
        },
    }
}

/// What a chapter fetch at `href` yields through a backend: nothing where
/// the fetch fails, else the parse outcome of the fetched bytes.
pub open spec fn spec_chapter_bytes(rdr: Reader, href: Seq<char>) -> Option<
    Result<ContentV, ErrV>,
> {
    match rdr.fetch_spec(href) {
        None => None,
        Some(b) => Some(spec_content_bytes(href, b)),
    }
}


} // verus!
