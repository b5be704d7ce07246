use vstd::prelude::*;

verus! {

/// The role a file plays within a site.
#[derive(Clone, Copy, Debug, PartialEq, Eq, Structural)]
pub enum AssetType {
    Css,
    Html,
    ProjectData,
    Script,
}

/// Whether a blob is stored compressed or as the original bytes.
#[derive(Clone, Copy, Debug, PartialEq, Eq, Structural)]
pub enum DigestType {
    Compressed,
    Uncompressed,
}

/// The hash algorithm behind a digest.
#[allow(non_camel_case_types)]
#[derive(Clone, Copy, Debug, PartialEq, Eq, Structural)]
pub enum DigestAlgo {
    SHA256,
}

/// A content hash; `value` is also the key of the blob in its site's namespace.
#[derive(Debug)]
pub struct Digest {
    pub algo: DigestAlgo,
    pub digest_type: DigestType,
    pub value: String,
}

/// One stored blob of a site, with its role.
#[derive(Debug)]
pub struct File {
    pub digest: Digest,
    pub asset_type: AssetType,
}

/// A site's metadata record.
#[derive(Debug)]
pub struct Site {
    pub name: String,
    pub aliases: Vec<String>,
    pub files: Vec<File>,
}

/// What a digest means: its tags and the characters of its value.
pub struct DigestView {
    pub algo: DigestAlgo,
    pub digest_type: DigestType,
    pub value: Seq<char>,
}

pub struct FileView {
    pub digest: DigestView,
    pub asset_type: AssetType,
}

pub struct SiteView {
    pub name: Seq<char>,
    pub aliases: Seq<Seq<char>>,
    pub files: Seq<FileView>,
}

impl View for Digest {
    type V = DigestView;

    open spec fn view(&self) -> DigestView {
        DigestView { algo: self.algo, digest_type: self.digest_type, value: self.value@ }
    }
}

impl View for File {
    type V = FileView;

    open spec fn view(&self) -> FileView {
        FileView { digest: self.digest@, asset_type: self.asset_type }
    }
}

impl View for Site {
    type V = SiteView;

    open spec fn view(&self) -> SiteView {
        SiteView {
            name: self.name@,
            aliases: self.aliases@.map_values(|a: String| a@),
            files: self.files@.map_values(|f: File| f@),
        }
    }
}

impl Digest {
    pub fn clone_digest(&self) -> (r: Digest)
        ensures
            r@ == self@,
    {
        Digest { algo: self.algo, digest_type: self.digest_type, value: self.value.clone() }
    }
}

impl File {
    pub fn clone_file(&self) -> (r: File)
        ensures
            r@ == self@,
    {
        File { digest: self.digest.clone_digest(), asset_type: self.asset_type }
    }
}

/// Why an operation on the store failed.
#[derive(Debug)]
pub enum Error {
    /// The storage location could not be reached; the message comes from the host.
    Io(String),
    /// The key-value engine failed; the message comes from the engine.
    DBError(String),
    /// A stored site record is malformed.
    Serialization(String),
    /// The namespace of this name holds no site record.
    NoSiteWithNameFound(String),
    /// No blob with this digest (first) exists in this site (second).
    NoSuchFileInThisSite(String, String),
    /// A stored blob is not valid UTF-8 text.
    NotValidUTF8(std::string::FromUtf8Error),
}

} // verus!
