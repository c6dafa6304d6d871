//! The OCF container index: `META-INF/container.xml` names the package
//! documents. The parser requires the top-level `container` element's
//! `version`, and requires of each `rootfile` its `full-path` and
//! `media-type`, rejecting any media type other than the package media type.

use vstd::prelude::*;

use crate::error::{EpubError, ErrV};
use crate::text::str_eq;
use crate::xml::{self, EventV, XMLDocument};

verus! {

/// The mathematical shape of one root file entry.
pub struct RootFileV {
    pub full_path: Seq<char>,
    pub media_type: Seq<char>,
}

/// The mathematical shape of a parsed container.
pub struct ContainerV {
    pub version: Seq<char>,
    pub root_files: Seq<RootFileV>,
}

/// One `rootfile` entry: where a package document lives, and its media type.
#[derive(Debug, Clone)]
pub struct RootFile {
    full_path: String,
    media_type: String,
}

impl View for RootFile {
    type V = RootFileV;

    closed spec fn view(&self) -> RootFileV {
        RootFileV { full_path: self.full_path@, media_type: self.media_type@ }
    }
}

impl RootFile {
    pub fn full_path(&self) -> (r: &str)
        ensures
            r@ == self@.full_path,
    {
        self.full_path.as_str()
    }

    pub fn media_type(&self) -> (r: &str)
        ensures
            r@ == self@.media_type,
    {
        self.media_type.as_str()
    }
}

/// The parsed container: its `version` and its root files in document order.
#[derive(Debug)]
pub struct Container {
    version: String,
    root_files: Vec<RootFile>,
}

impl View for Container {
    type V = ContainerV;

    closed spec fn view(&self) -> ContainerV {
        ContainerV {
            version: self.version@,
            root_files: self.root_files@.map_values(|f: RootFile| f@),
        }
    }
}

/// The container's `version` attribute. Its absence, like the absence of
/// the `container` element itself, leaves the container structurally
/// invalid: both are container errors.
pub open spec fn spec_version(evs: Seq<EventV>) -> Result<Seq<char>, ErrV> {
    match xml::spec_find_tag(evs, "container"@) {
        None => Err(ErrV::Container("container not in container.xml file"@)),
        Some(c) => match xml::spec_attr(evs, c, "version"@) {
            Some(v) => Ok(v),
            None => Err(ErrV::Container("version not exist"@)),
        },
    }
}

/// The root files named by the given `rootfile` nodes, in order; the first
/// structural failure wins. A media type other than the package media type
/// is a format error.
pub open spec fn spec_root_files_from(evs: Seq<EventV>, ids: Seq<int>) -> Result<
    Seq<RootFileV>,
    ErrV,
>
    decreases ids.len(),
{
    if ids.len() == 0 {
        Ok(Seq::empty())
    } else {
        let i = ids[0];
        match xml::spec_attr(evs, i, "full-path"@) {
            None => Err(ErrV::Xml("full-path"@ + " not exist"@)),
            Some(fp) => match xml::spec_attr(evs, i, "media-type"@) {
                None => Err(ErrV::Xml("media-type"@ + " not exist"@)),
                Some(mt) => if mt != "application/oebps-package+xml"@ {
                    Err(ErrV::Format("media-type must be application/oebps-package+xml"@))
                } else {
                    match spec_root_files_from(evs, ids.drop_first()) {
                        Ok(rest) => Ok(seq![RootFileV { full_path: fp, media_type: mt }] + rest),
                        Err(e) => Err(e),
                    }
                },
            },
        }
    }
}

pub open spec fn spec_root_files(evs: Seq<EventV>) -> Result<Seq<RootFileV>, ErrV> {
    spec_root_files_from(evs, xml::spec_find_all_tag(evs, "rootfile"@))
}

/// What parsing container bytes yields: the version and the root files, or
/// the first failure.
pub open spec fn spec_container(evs: Seq<EventV>) -> Result<ContainerV, ErrV> {
    match spec_version(evs) {
        Err(e) => Err(e),
        Ok(v) => match spec_root_files(evs) {
            Err(e) => Err(e),
            Ok(fs) => Ok(ContainerV { version: v, root_files: fs }),
        },
    }
}

/// As [`spec_container`], from the raw bytes.
pub open spec fn spec_container_bytes(content: Seq<u8>) -> Result<ContainerV, ErrV> {
    match xml::xml_events_of(content) {
        None => Err(ErrV::Xml("create xml failed"@)),
        Some(evs) => spec_container(evs),
    }
}

proof fn lemma_root_files_media(evs: Seq<EventV>, ids: Seq<int>)
    requires
        forall|k: int|
            0 <= k < ids.len() ==> (xml::spec_attr(evs, #[trigger] ids[k], "full-path"@) is Some
                && xml::spec_attr(evs, ids[k], "media-type"@) is Some),
    ensures
        match spec_root_files_from(evs, ids) {
            Ok(fs) => forall|k: int|
                0 <= k < ids.len() ==> xml::spec_attr(evs, #[trigger] ids[k], "media-type"@)
                    == Some("application/oebps-package+xml"@),
            Err(e) => e == ErrV::Format("media-type must be application/oebps-package+xml"@)
                && exists|k: int|
                0 <= k < ids.len() && xml::spec_attr(evs, #[trigger] ids[k], "media-type"@)
                    != Some("application/oebps-package+xml"@),
        },
    decreases ids.len(),
{
    if ids.len() > 0 {
        let rest = ids.drop_first();
        assert forall|k: int|
            0 <= k < rest.len() implies (xml::spec_attr(evs, #[trigger] rest[k], "full-path"@)
            is Some && xml::spec_attr(evs, rest[k], "media-type"@) is Some) by {
            assert(rest[k] == ids[k + 1]);
        }
        lemma_root_files_media(evs, rest);
        let i = ids[0];
        if xml::spec_attr(evs, i, "media-type"@) == Some("application/oebps-package+xml"@) {
            match spec_root_files_from(evs, rest) {
                Ok(_) => {
                    assert forall|k: int|
                        0 <= k < ids.len() implies xml::spec_attr(
                        evs,
                        #[trigger] ids[k],
                        "media-type"@,
                    ) == Some("application/oebps-package+xml"@) by {
                        if k > 0 {
                            assert(rest[k - 1] == ids[k]);
                        }
                    }
                },
                Err(_) => {
                    let k0 = choose|k: int|
                        0 <= k < rest.len() && xml::spec_attr(
                            evs,
                            #[trigger] rest[k],
                            "media-type"@,
                        ) != Some("application/oebps-package+xml"@);
                    assert(ids[k0 + 1] == rest[k0]);
                    assert(0 <= k0 + 1 < ids.len() && xml::spec_attr(
                        evs,
                        ids[k0 + 1],
                        "media-type"@,
                    ) != Some("application/oebps-package+xml"@));
                },
            }
        } else {
            assert(0 <= 0 < ids.len() && xml::spec_attr(evs, ids[0], "media-type"@) != Some(
                "application/oebps-package+xml"@,
            ));
        }
    }
}

/// The media-type check as a law: for a container whose `version` is
/// present and whose every `rootfile` carries both required attributes,
/// parsing fails exactly when some root file's media type differs from the
/// package media type, and then with that format error. (A root file
/// missing a required attribute instead surfaces that earlier failure, per
/// the first-failure propagation.)
pub proof fn lemma_wrong_media_type_is_format_error(evs: Seq<EventV>)
    requires
        spec_version(evs) is Ok,
        forall|k: int|
            0 <= k < xml::spec_find_all_tag(evs, "rootfile"@).len() ==> (xml::spec_attr(
                evs,
                #[trigger] xml::spec_find_all_tag(evs, "rootfile"@)[k],
                "full-path"@,
            ) is Some && xml::spec_attr(
                evs,
                xml::spec_find_all_tag(evs, "rootfile"@)[k],
                "media-type"@,
            ) is Some),
    ensures
        (spec_container(evs) is Err) <==> (exists|k: int|
            0 <= k < xml::spec_find_all_tag(evs, "rootfile"@).len() && xml::spec_attr(
                evs,
                #[trigger] xml::spec_find_all_tag(evs, "rootfile"@)[k],
                "media-type"@,
            ) != Some("application/oebps-package+xml"@)),
        spec_container(evs) matches Err(e) ==> e == ErrV::Format(
            "media-type must be application/oebps-package+xml"@,
        ),
{
    lemma_root_files_media(evs, xml::spec_find_all_tag(evs, "rootfile"@));
}

fn parse_version(doc: &XMLDocument) -> (r: Result<String, EpubError>)
    ensures
        match r {
            Ok(v) => spec_version(doc@) == Ok::<_, ErrV>(v@),
            Err(e) => spec_version(doc@) == Err::<Seq<char>, _>(e@),
        },
{
    match doc.find_tag("container") {
        None => Err(
            EpubError::ContainerError(String::from_str("container not in container.xml file")),
        ),
        Some(c) => match xml::parse_attribute(doc, c, "version") {
            Some(v) => Ok(v),
            None => Err(EpubError::ContainerError(String::from_str("version not exist"))),
        },
    }
}

fn parse_root_files(doc: &XMLDocument) -> (r: Result<Vec<RootFile>, EpubError>)
    ensures
        match r {
            Ok(fs) => spec_root_files(doc@) == Ok::<_, ErrV>(
                fs@.map_values(|f: RootFile| f@),
            ),
            Err(e) => spec_root_files(doc@) == Err::<Seq<RootFileV>, _>(e@),
        },
{
    let ghost evs = doc@;
    let rootfiles = doc.find_all_tag("rootfile");
    let ghost ids = xml::spec_find_all_tag(evs, "rootfile"@);
    let n = rootfiles.len();
    let mut files: Vec<RootFile> = Vec::new();
    let mut k: usize = 0;
    proof {
        assert(ids.skip(0) =~= ids);
        assert(files@.map_values(|f: RootFile| f@) =~= Seq::<RootFileV>::empty());
        if spec_root_files_from(evs, ids) is Ok {
            let rest = spec_root_files_from(evs, ids)->Ok_0;
            assert(Seq::<RootFileV>::empty() + rest =~= rest);
        }
    }
    while k < n
        invariant
            evs == doc@,
            n == rootfiles@.len(),
            ids == rootfiles@.map_values(|u: usize| u as int),
            ids == xml::spec_find_all_tag(evs, "rootfile"@),
            k <= n,
            spec_root_files(evs) == match spec_root_files_from(evs, ids.skip(k as int)) {
                Ok(rest) => Ok::<_, ErrV>(files@.map_values(|f: RootFile| f@) + rest),
                Err(e) => Err::<Seq<RootFileV>, _>(e),
            },
        decreases n - k,
    {
        let ghost files0 = files@.map_values(|f: RootFile| f@);
        let ghost tail = ids.skip(k as int);
        proof {
            assert(tail[0] == ids[k as int]);
            assert(ids[k as int] == rootfiles@.map_values(|u: usize| u as int)[k as int]);
            assert(tail.drop_first() =~= ids.skip(k + 1));
        }
        let node = rootfiles[k];
        let full_path = match xml::parse_attribute_must_exist(doc, node, "full-path") {
            Ok(v) => v,
            Err(e) => {
                return Err(e);
            },
        };
        let media_type = match xml::parse_attribute_must_exist(doc, node, "media-type") {
            Ok(v) => v,
            Err(e) => {
                return Err(e);
            },
        };
        if !str_eq(media_type.as_str(), "application/oebps-package+xml") {
            return Err(
                EpubError::FormatError(
                    String::from_str("media-type must be application/oebps-package+xml"),
                ),
            );
        }
        files.push(RootFile { full_path, media_type });
        proof {
            assert(files@.map_values(|f: RootFile| f@) =~= files0.push(
                RootFileV {
                    full_path: files@.last()@.full_path,
                    media_type: files@.last()@.media_type,
                },
            ));
            assert(spec_root_files_from(evs, tail) == match spec_root_files_from(
                evs,
                ids.skip(k + 1),
            ) {
                Ok(rest) => Ok::<_, ErrV>(seq![files@.last()@] + rest),
                Err(e) => Err::<Seq<RootFileV>, _>(e),
            });
            if spec_root_files_from(evs, ids.skip(k + 1)) is Ok {
                let rest = spec_root_files_from(evs, ids.skip(k + 1))->Ok_0;
                assert(files0 + (seq![files@.last()@] + rest) =~= files@.map_values(
                    |f: RootFile| f@,
                ) + rest);
            }
        }
        k = k + 1;
    }
    proof {
        assert(ids.skip(n as int) =~= Seq::<int>::empty());
        assert(files@.map_values(|f: RootFile| f@) + Seq::<RootFileV>::empty() =~= files@.map_values(
            |f: RootFile| f@,
        ));
    }
    Ok(files)
}

impl Container {
    /// Parses container bytes: the version is required, and every root file
    /// must carry the package media type.
    pub fn new(content: &[u8]) -> (r: Result<Container, EpubError>)
        ensures
            match r {
                Ok(c) => spec_container_bytes(content@) == Ok::<_, ErrV>(c@),
                Err(e) => spec_container_bytes(content@) == Err::<ContainerV, _>(e@),
            },
    {
        let doc = match XMLDocument::try_new(content) {
            Ok(d) => d,
            Err(e) => {
                return Err(e);
            },
        };
        let version = match parse_version(&doc) {
            Ok(v) => v,
            Err(e) => {
                return Err(e);
            },
        };
        let root_files = match parse_root_files(&doc) {
            Ok(fs) => fs,
            Err(e) => {
                return Err(e);
            },
        };
        Ok(Container { version, root_files })
    }

    /// The path of the first root file in document order, or nothing where
    /// the list is empty.
    pub fn full_path(&self) -> (r: Option<String>)
        ensures
            match r {
                Some(p) => self@.root_files.len() > 0 && p@ == self@.root_files[0].full_path,
                None => self@.root_files.len() == 0,
            },
    {
        if self.root_files.len() == 0 {
            return None;
        }
        proof {
            assert(self@.root_files[0] == self.root_files@[0]@);
        }
        Some(String::from_str(self.root_files[0].full_path.as_str()))
    }

    /// All root files, in document order.
    pub fn root_files(&self) -> (r: &[RootFile])
        ensures
            r@.map_values(|f: RootFile| f@) == self@.root_files,
    {
        self.root_files.as_slice()
    }

    /// The container's `version` attribute.
    pub fn version(&self) -> (r: &str)
        ensures
            r@ == self@.version,
    {
        self.version.as_str()
    }
}

} // verus!
