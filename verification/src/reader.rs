//! The storage backends: uniform byte-fetch over an in-memory archive or an
//! in-memory directory tree. Either backend answers `container` — the bytes
//! of `META-INF/container.xml` — and `readfile` for any archive-relative
//! path; what a fetch yields is pinned by each backend's `fetch_spec`.

use vstd::prelude::*;

use crate::container::Container;
use crate::content::Content;
use crate::error::{EpubError, ErrV};
use crate::nav::Navigation;
use crate::package::Package;
use crate::text::str_eq;

verus! {

/// The bytes of the named entry of the archive whose raw bytes are `data`:
/// a function of the archive bytes and the name alone, or nothing where the
/// entry is absent or cannot be read.
pub uninterp spec fn zip_entry_of(data: Seq<u8>, name: Seq<char>) -> Option<Seq<u8>>;

/// Whether `data` holds a readable archive directory: a function of the
/// bytes alone.
pub uninterp spec fn zip_valid(data: Seq<u8>) -> bool;

/// Relies on zip's `ZipArchive::new` over an in-memory cursor: whether the
/// central directory can be read.
#[verifier::external_body]
fn zip_check(data: &[u8]) -> (r: Result<(), String>)
    ensures
        r is Ok <==> zip_valid(data@),
{
    match zip::ZipArchive::new(std::io::Cursor::new(data)) {
        Ok(_) => Ok(()),
        Err(e) => Err(e.to_string()),
    }
}

/// Relies on zip's `ZipArchive::by_name` and `Read::read_to_end`: the named
/// entry is found and decompressed, or the attempt fails.
#[verifier::external_body]
fn zip_read_entry(data: &[u8], name: &str) -> (r: Result<Vec<u8>, String>)
    ensures
        r matches Ok(b) ==> zip_entry_of(data@, name@) == Some(b@),
        r is Err ==> zip_entry_of(data@, name@) is None,
{
    let mut archive = zip::ZipArchive::new(std::io::Cursor::new(data)).map_err(|e| e.to_string())?;
    let mut file = archive.by_name(name).map_err(|e| e.to_string())?;
    let mut content = Vec::new();
    std::io::Read::read_to_end(&mut file, &mut content).map_err(|e| e.to_string())?;
    Ok(content)
}

/// A uniform byte-fetch: the container index, and any named file.
pub trait EpubReader: Sized {
    /// What fetching `path` yields, as a function of the backend's state.
    spec fn fetch_spec(&self, path: Seq<char>) -> Option<Seq<u8>>;

    /// The bytes of `META-INF/container.xml`; a missing index file fails
    /// with the backend's own error: a reader error for an archive entry, a
    /// container error for the directory backend.
    fn container(&mut self) -> (r: Result<Vec<u8>, EpubError>)
        ensures
            *final(self) == *old(self),
            match r {
                Ok(b) => old(self).fetch_spec("META-INF/container.xml"@) == Some(b@),
                Err(e) => old(self).fetch_spec("META-INF/container.xml"@) is None && (e
                    matches EpubError::ReaderError(_) || e matches EpubError::ContainerError(_)),
            },
    ;

    /// The bytes of the file at `path`; a missing file is a reader error.
    fn readfile(&mut self, path: &str) -> (r: Result<Vec<u8>, EpubError>)
        ensures
            *final(self) == *old(self),
            match r {
                Ok(b) => old(self).fetch_spec(path@) == Some(b@),
                Err(e) => old(self).fetch_spec(path@) is None && e
                    matches EpubError::ReaderError(_),
            },
    ;
}

/// The archive backend: the raw bytes of a ZIP archive, decompressing the
/// named entry on each fetch.
#[derive(Debug)]
pub struct ZipReader {
    data: Vec<u8>,
}

impl ZipReader {
    /// The archive's raw bytes.
    pub closed spec fn data_spec(&self) -> Seq<u8> {
        self.data@
    }

    /// Takes an archive already loaded into memory; malformed archive bytes
    /// fail with an archive-format error.
    pub fn new_from_memory(buffer: Vec<u8>) -> (r: Result<ZipReader, EpubError>)
        ensures
            match r {
                Ok(z) => zip_valid(buffer@) && z.data_spec() == buffer@,
                Err(e) => !zip_valid(buffer@) && e matches EpubError::ArchiveError(_),
            },
    {
        match zip_check(buffer.as_slice()) {
            Ok(_) => Ok(ZipReader { data: buffer }),
            Err(m) => Err(EpubError::ArchiveError(m)),
        }
    }

    /// Decompresses the named entry.
    pub fn readfile(&mut self, filename: &str) -> (r: Result<Vec<u8>, EpubError>)
        ensures
            *final(self) == *old(self),
            match r {
                Ok(b) => zip_entry_of(old(self).data_spec(), filename@) == Some(b@),
                Err(e) => zip_entry_of(old(self).data_spec(), filename@) is None && (e
                    matches EpubError::ReaderError(_)),
            },
    {
        match zip_read_entry(self.data.as_slice(), filename) {
            Ok(b) => Ok(b),
            Err(m) => Err(
                EpubError::ReaderError(
                    String::from_str("read ").concat(filename).concat(" error: ").concat(
                        m.as_str(),
                    ),
                ),
            ),
        }
    }
}

impl EpubReader for ZipReader {
    open spec fn fetch_spec(&self, path: Seq<char>) -> Option<Seq<u8>> {
        zip_entry_of(self.data_spec(), path)
    }

    fn container(&mut self) -> (r: Result<Vec<u8>, EpubError>) {
        self.readfile("META-INF/container.xml")
    }

    fn readfile(&mut self, path: &str) -> (r: Result<Vec<u8>, EpubError>) {
        self.readfile(path)
    }
}

/// The view of one directory entry: its path and its bytes.
pub open spec fn file_view(p: (String, Vec<u8>)) -> (Seq<char>, Seq<u8>) {
    (p.0@, p.1@)
}

/// The bytes of the first entry named `path`, scanning from `k`.
pub open spec fn dir_lookup_from(
    files: Seq<(Seq<char>, Seq<u8>)>,
    path: Seq<char>,
    k: int,
) -> Option<Seq<u8>>
    decreases files.len() - k,
{
    if !(0 <= k < files.len()) {
        None
    } else if files[k].0 == path {
        Some(files[k].1)
    } else {
        dir_lookup_from(files, path, k + 1)
    }
}

pub open spec fn dir_lookup(files: Seq<(Seq<char>, Seq<u8>)>, path: Seq<char>) -> Option<Seq<u8>> {
    dir_lookup_from(files, path, 0)
}

/// The directory backend: an unpacked book, each file's archive-relative
/// path paired with its bytes.
#[derive(Debug)]
pub struct DirReader {
    files: Vec<(String, Vec<u8>)>,
}

impl DirReader {
    /// The directory's files.
    pub closed spec fn files_spec(&self) -> Seq<(Seq<char>, Seq<u8>)> {
        self.files@.map_values(|p: (String, Vec<u8>)| file_view(p))
    }

    /// Takes the directory tree's files, already read into memory.
    pub fn try_new(files: Vec<(String, Vec<u8>)>) -> (r: Result<DirReader, EpubError>)
        ensures
            match r {
                Ok(d) => d.files_spec() == files@.map_values(|p: (String, Vec<u8>)| file_view(p)),
                Err(e) => false,
            },
    {
        Ok(DirReader { files })
    }

    /// The bytes of the file at `path`, or a reader error naming it.
    pub fn readfile(&mut self, path: &str) -> (r: Result<Vec<u8>, EpubError>)
        ensures
            *final(self) == *old(self),
            match r {
                Ok(b) => dir_lookup(old(self).files_spec(), path@) == Some(b@),
                Err(e) => dir_lookup(old(self).files_spec(), path@) is None && e@ == ErrV::Reader(
                    path@ + " not in directory"@,
                ),
            },
    {
        let ghost fls = self.files_spec();
        let n = self.files.len();
        let mut k: usize = 0;
        while k < n
            invariant
                fls == self.files_spec(),
                *self == *old(self),
                n == self.files@.len(),
                k <= n,
                dir_lookup(fls, path@) == dir_lookup_from(fls, path@, k as int),
            decreases n - k,
        {
            proof {
                assert(fls[k as int] == file_view(self.files@[k as int]));
            }
            if str_eq(self.files[k].0.as_str(), path) {
                let out = vstd::slice::slice_to_vec(self.files[k].1.as_slice());
                return Ok(out);
            }
            k = k + 1;
        }
        Err(EpubError::ReaderError(String::from_str(path).concat(" not in directory")))
    }
}

impl DirReader {
    /// The container index's bytes; its absence leaves no usable container.
    pub fn container(&mut self) -> (r: Result<Vec<u8>, EpubError>)
        ensures
            *final(self) == *old(self),
            match r {
                Ok(b) => dir_lookup(old(self).files_spec(), "META-INF/container.xml"@) == Some(
                    b@,
                ),
                Err(e) => dir_lookup(old(self).files_spec(), "META-INF/container.xml"@) is None
                    && e@ == ErrV::Container("META-INF/container.xml not in directory"@),
            },
    {
        match self.readfile("META-INF/container.xml") {
            Ok(b) => Ok(b),
            Err(_) => Err(
                EpubError::ContainerError(
                    String::from_str("META-INF/container.xml not in directory"),
                ),
            ),
        }
    }
}

impl EpubReader for DirReader {
    open spec fn fetch_spec(&self, path: Seq<char>) -> Option<Seq<u8>> {
        dir_lookup(self.files_spec(), path)
    }

    fn container(&mut self) -> (r: Result<Vec<u8>, EpubError>) {
        self.container()
    }

    fn readfile(&mut self, path: &str) -> (r: Result<Vec<u8>, EpubError>) {
        self.readfile(path)
    }
}

/// The closed set of storage backends.
#[derive(Debug)]
pub enum Reader {
    Zip(ZipReader),
    Dir(DirReader),
}

impl Reader {
    /// What fetching `path` yields from this backend.
    pub open spec fn fetch_spec(&self, path: Seq<char>) -> Option<Seq<u8>> {
        match self {
            Reader::Zip(z) => z.fetch_spec(path),
            Reader::Dir(d) => d.fetch_spec(path),
        }
    }

    /// Opens an archive already loaded into memory.
    pub fn new_from_memory(buffer: Vec<u8>) -> (r: Result<Reader, EpubError>)
        ensures
            match r {
                Ok(rd) => zip_valid(buffer@) && (rd matches Reader::Zip(z) && z.data_spec()
                    == buffer@),
                Err(e) => !zip_valid(buffer@) && e matches EpubError::ArchiveError(_),
            },
    {
        match ZipReader::new_from_memory(buffer) {
            Ok(z) => Ok(Reader::Zip(z)),
            Err(e) => Err(e),
        }
    }

    /// Opens an unpacked directory tree, its files already read into memory.
    pub fn new_from_files(files: Vec<(String, Vec<u8>)>) -> (r: Result<Reader, EpubError>)
        ensures
            match r {
                Ok(rd) => rd matches Reader::Dir(d) && d.files_spec() == files@.map_values(
                    |p: (String, Vec<u8>)| file_view(p),
                ),
                Err(e) => false,
            },
    {
        match DirReader::try_new(files) {
            Ok(d) => Ok(Reader::Dir(d)),
            Err(e) => Err(e),
        }
    }

    /// The bytes of the file at `path`; a missing file is a reader error.
    pub fn readfile(&mut self, path: &str) -> (r: Result<Vec<u8>, EpubError>)
        ensures
            *final(self) == *old(self),
            match r {
                Ok(b) => old(self).fetch_spec(path@) == Some(b@),
                Err(e) => old(self).fetch_spec(path@) is None && e
                    matches EpubError::ReaderError(_),
            },
    {
        match self {
            Reader::Zip(z) => EpubReader::readfile(z, path),
            Reader::Dir(d) => EpubReader::readfile(d, path),
        }
    }

    /// The container index's bytes; a missing index file fails with the
    /// backend's own error.
    fn container(&mut self) -> (r: Result<Vec<u8>, EpubError>)
        ensures
            *final(self) == *old(self),
            match r {
                Ok(b) => old(self).fetch_spec("META-INF/container.xml"@) == Some(b@),
                Err(e) => old(self).fetch_spec("META-INF/container.xml"@) is None && (old(
                    self,
                ) matches Reader::Zip(_) ==> e matches EpubError::ReaderError(_)) && (old(self)
                    matches Reader::Dir(_) ==> e matches EpubError::ContainerError(_)),
            },
    {
        match self {
            Reader::Zip(z) => z.readfile("META-INF/container.xml"),
            Reader::Dir(d) => d.container(),
        }
    }

    /// Fetches and parses `META-INF/container.xml`.
    pub fn read_meta_container(&mut self) -> (r: Result<Container, EpubError>)
        ensures
            *final(self) == *old(self),
            match r {
                Ok(c) => {
                    &&& old(self).fetch_spec("META-INF/container.xml"@) matches Some(bytes)
                    &&& crate::container::spec_container_bytes(
                        old(self).fetch_spec("META-INF/container.xml"@)->0,
                    ) == Ok::<_, ErrV>(c@)
                },
                Err(e) => (old(self).fetch_spec("META-INF/container.xml"@) is None && (old(
                    self,
                ) matches Reader::Zip(_) ==> e matches EpubError::ReaderError(_)) && (old(self)
                    matches Reader::Dir(_) ==> e matches EpubError::ContainerError(_))) || (old(
                    self,
                ).fetch_spec("META-INF/container.xml"@) matches Some(cb)
                    && crate::container::spec_container_bytes(cb) == Err::<
                    crate::container::ContainerV,
                    _,
                >(e@)),
            },
    {
        let content = match self.container() {
            Ok(b) => b,
            Err(e) => {
                return Err(e);
            },
        };
        Container::new(content.as_slice())
    }

    /// Fetches and parses the package document at `path`.
    pub fn read_package(&mut self, path: &str) -> (r: Result<Package, EpubError>)
        ensures
            *final(self) == *old(self),
            match r {
                Ok(p) => {
                    &&& old(self).fetch_spec(path@) matches Some(bytes)
                    &&& crate::package::spec_package_bytes(path@, old(self).fetch_spec(path@)->0)
                        == Ok::<_, ErrV>(p@)
                },
                Err(e) => (old(self).fetch_spec(path@) is None && e
                    matches EpubError::ReaderError(_)) || (old(self).fetch_spec(path@)
                    matches Some(pb) && crate::package::spec_package_bytes(path@, pb) == Err::<
                    crate::package::PackageV,
                    _,
                >(e@)),
            },
    {
        let content = match self.readfile(path) {
            Ok(b) => b,
            Err(e) => {
                return Err(e);
            },
        };
        Package::new(path, content.as_slice())
    }

    /// Fetches and parses a Navigation Document.
    pub fn read_nav(&mut self, href: &str) -> (r: Result<Navigation, EpubError>)
        ensures
            *final(self) == *old(self),
            match r {
                Ok(n) => {
                    &&& old(self).fetch_spec(href@) matches Some(bytes)
                    &&& crate::navigation::spec_navdoc_bytes(old(self).fetch_spec(href@)->0)
                        == Ok::<_, ErrV>(n@)
                },
                Err(e) => (old(self).fetch_spec(href@) is None && e
                    matches EpubError::ReaderError(_)) || (old(self).fetch_spec(href@)
                    matches Some(nb) && crate::navigation::spec_navdoc_bytes(nb) == Err::<
                    crate::nav::NavigationV,
                    _,
                >(e@)),
            },
    {
        let content = match self.readfile(href) {
            Ok(b) => b,
            Err(e) => {
                return Err(e);
            },
        };
        Navigation::new_from_nav(content.as_slice())
    }

    /// Fetches and parses an NCX document.
    pub fn read_ncx(&mut self, href: &str) -> (r: Result<Navigation, EpubError>)
        ensures
            *final(self) == *old(self),
            match r {
                Ok(n) => {
                    &&& old(self).fetch_spec(href@) matches Some(bytes)
                    &&& crate::ncx::spec_ncx_bytes(old(self).fetch_spec(href@)->0) == Ok::<
                        _,
                        ErrV,
                    >(n@)
                },
                Err(e) => (old(self).fetch_spec(href@) is None && e
                    matches EpubError::ReaderError(_)) || (old(self).fetch_spec(href@)
                    matches Some(nb) && crate::ncx::spec_ncx_bytes(nb) == Err::<
                    crate::nav::NavigationV,
                    _,
                >(e@)),
            },
    {
        let content = match self.readfile(href) {
            Ok(b) => b,
            Err(e) => {
                return Err(e);
            },
        };
        Navigation::new_from_ncx(content.as_slice())
    }

    /// Fetches and parses a chapter for processing.
    pub fn read_content(&mut self, href: &str) -> (r: Result<Content, EpubError>)
        ensures
            *final(self) == *old(self),
            match r {
                Ok(c) => {
                    &&& old(self).fetch_spec(href@) matches Some(bytes)
                    &&& crate::content::spec_content_bytes(
                        href@,
                        old(self).fetch_spec(href@)->0,
                    ) == Ok::<_, ErrV>(c@)
                },
                Err(e) => (old(self).fetch_spec(href@) is None && e
                    matches EpubError::ReaderError(_)) || (old(self).fetch_spec(href@)
                    matches Some(cb) && crate::content::spec_content_bytes(href@, cb) == Err::<
                    crate::content::ContentV,
                    _,
                >(e@)),
            },
    {
        let buf = match self.readfile(href) {
            Ok(b) => b,
            Err(e) => {
                return Err(e);
            },
        };
        Content::new(href, buf.as_slice())
    }

    /// The raw bytes of the file at `href`, byte for byte; a missing file
    /// is a reader error.
    pub fn read_binary(&mut self, href: &str) -> (r: Result<Vec<u8>, EpubError>)
        ensures
            *final(self) == *old(self),
            match r {
                Ok(b) => old(self).fetch_spec(href@) == Some(b@),
                Err(e) => old(self).fetch_spec(href@) is None && e
                    matches EpubError::ReaderError(_),
            },
    {
        self.readfile(href)
    }
}

} // verus!
