//! Files in an S3-compatible store: which store it is, which key a path stands for, and
//! how a file is written.
use crate::sql_catalog::CatalogFault;
use crate::text::{begins_with, starts_with};
use vstd::prelude::*;
use vstd::string::StrSliceExecFns;

verus! {

/// How a store is reached.
#[derive(Debug)]
pub struct S3Settings {
    pub bucket: String,
    pub endpoint: Option<String>,
    pub region: String,
    pub access_key_id: String,
    pub secret_access_key: String,
    /// Whether the bucket stands in the path rather than in the host's name.
    pub path_style: bool,
}

/// Makes stores of the same settings.
#[derive(Debug)]
pub struct S3StorageFactory {
    pub settings: S3Settings,
}

impl S3StorageFactory {
    /// A factory of stores with these settings.
    pub fn new(
        bucket: String,
        endpoint: Option<String>,
        region: String,
        access_key_id: String,
        secret_access_key: String,
        path_style: bool,
    ) -> (r: Self)
        ensures
            r.settings == (S3Settings {
                bucket,
                endpoint,
                region,
                access_key_id,
                secret_access_key,
                path_style,
            }),
    {
        S3StorageFactory {
            settings: S3Settings {
                bucket,
                endpoint,
                region,
                access_key_id,
                secret_access_key,
                path_style,
            },
        }
    }
}

impl S3Settings {
    /// Whether the bucket stands in the host's name.
    pub fn virtual_hosted(&self) -> (r: bool)
        ensures
            r == !self.path_style,
    {
        !self.path_style
    }

    /// Whether the store may be reached without encryption: where it is named by its
    /// address.
    pub fn allows_http(&self) -> (r: bool)
        ensures
            r == (self.endpoint is Some),
    {
        self.endpoint.is_some()
    }
}

/// The text behind the first slash; nothing where there is none.
pub open spec fn behind_slash(t: Seq<char>) -> Seq<char>
    decreases t.len(),
{
    if t.len() == 0 {
        t
    } else if t[0] == '/' {
        t.skip(1)
    } else {
        behind_slash(t.skip(1))
    }
}

/// The text without the slashes before it.
pub open spec fn unslashed(t: Seq<char>) -> Seq<char>
    decreases t.len(),
{
    if t.len() == 0 || t[0] != '/' {
        t
    } else {
        unslashed(t.skip(1))
    }
}

/// The text of a key: what is behind the scheme and the bucket, without slashes before
/// it. Where no slash follows the scheme there is no bucket, and the rest is the key.
pub open spec fn key_text(path: Seq<char>) -> Seq<char> {
    if starts_with(path, "s3://"@) {
        let rest = path.skip(5);
        if rest.contains('/') {
            unslashed(behind_slash(rest))
        } else {
            rest
        }
    } else {
        unslashed(behind_slash(path))
    }
}

/// A text as a path of the store.
pub uninterp spec fn store_path(t: Seq<char>) -> Seq<char>;

/// A text as a path of the store, by `object_store::path::Path::from`. Claims that the
/// outcome depends on the characters of the text alone; which of them the path holds
/// in an encoded form is left unsaid.
#[verifier::external_body]
pub(crate) fn path_of(t: &str) -> (r: String)
    ensures
        r@ == store_path(t@),
{
    String::from(object_store::path::Path::from(t))
}

/// The text of the key that a path stands for.
pub fn raw_key(path: &str) -> (r: String)
    ensures
        r@ == key_text(path@),
{
    let n: usize = path.unicode_len();
    let mut i: usize = 0;
    proof {
        reveal_strlit("s3://");
        assert(path@.skip(0) =~= path@);
    }
    let schemed: bool = begins_with(path, "s3://");
    if schemed {
        i = 5;
    }
    let start: usize = i;
    let ghost rest = path@.skip(start as int);
    while i < n && path.get_char(i) != '/'
        invariant
            n == path@.len(),
            start <= i <= n,
            rest == path@.skip(start as int),
            forall|j: int| start <= j < i ==> #[trigger] path@[j] != '/',
            behind_slash(rest) == behind_slash(path@.skip(i as int)),
        decreases n - i,
    {
        assert(path@.skip(i as int).skip(1) =~= path@.skip(i + 1));
        i = i + 1;
    }
    if schemed && i == n {
        assert(!rest.contains('/'));
        let bare: &str = path.substring_char(start, n);
        assert(bare@ =~= rest);
        return bare.to_owned();
    }
    assert(schemed ==> rest[i - start] == '/');
    assert(key_text(path@) == unslashed(behind_slash(rest)));
    if i < n {
        assert(path@.skip(i as int).skip(1) =~= path@.skip(i + 1));
        i = i + 1;
    }
    assert(behind_slash(rest) =~= path@.skip(i as int));
    let ghost key = path@.skip(i as int);
    while i < n && path.get_char(i) == '/'
        invariant
            n == path@.len(),
            i <= n,
            unslashed(key) == unslashed(path@.skip(i as int)),
        decreases n - i,
    {
        assert(path@.skip(i as int).skip(1) =~= path@.skip(i + 1));
        i = i + 1;
    }
    let out: &str = path.substring_char(i, n);
    assert(out@ =~= path@.skip(i as int));
    out.to_owned()
}

/// A store, by its settings.
#[derive(Debug)]
pub struct S3Storage {
    pub settings: S3Settings,
}

impl S3Storage {
    /// The key that a path stands for: what is behind `s3://` and the bucket, or behind
    /// `s3://` where no slash follows it.
    pub fn key_of(path: &str) -> (r: String)
        ensures
            r@ == store_path(key_text(path@)),
    {
        path_of(raw_key(path).as_str())
    }
}

/// A path of a scheme and a key without a slash stands for the key.
pub proof fn law_bare_key_is_kept(key: Seq<char>)
    requires
        !key.contains('/'),
    ensures
        key_text("s3://"@ + key) == key,
{
    reveal_strlit("s3://");
    let path = "s3://"@ + key;
    assert(path.take(5) =~= "s3://"@);
    assert(path.skip(5) =~= key);
}

/// A path of a scheme, a bucket and a key stands for the key.
pub proof fn law_bucket_is_dropped(bucket: Seq<char>, key: Seq<char>)
    requires
        forall|i: int| 0 <= i < bucket.len() ==> #[trigger] bucket[i] != '/',
        key.len() == 0 || key[0] != '/',
    ensures
        key_text("s3://"@ + bucket + "/"@ + key) == key,
{
    reveal_strlit("s3://");
    reveal_strlit("/");
    let path = "s3://"@ + bucket + "/"@ + key;
    assert(path.take(5) =~= "s3://"@);
    assert(path.skip(5) =~= bucket + "/"@ + key);
    assert("/"@ =~= seq!['/']);
    assert(path.skip(5)[bucket.len() as int] == '/');
    lemma_behind(bucket, key);
}

proof fn lemma_behind(bucket: Seq<char>, key: Seq<char>)
    requires
        forall|i: int| 0 <= i < bucket.len() ==> #[trigger] bucket[i] != '/',
        "/"@ == seq!['/'],
    ensures
        behind_slash(bucket + "/"@ + key) == key,
    decreases bucket.len(),
{
    let t = bucket + "/"@ + key;
    if bucket.len() == 0 {
        assert(t.skip(1) =~= key);
    } else {
        assert(t[0] == bucket[0]);
        assert(t.skip(1) =~= bucket.skip(1) + "/"@ + key);
        assert forall|i: int| 0 <= i < bucket.skip(1).len() implies #[trigger] bucket.skip(1)[i] != '/' by {
            assert(bucket.skip(1)[i] == bucket[i + 1]);
        }
        lemma_behind(bucket.skip(1), key);
    }
}

/// How asking for a file comes out.
#[derive(Clone, Copy, Debug, PartialEq, Eq, Structural)]
pub enum Asked {
    Found,
    NotFound,
    Failed,
}

/// Whether a file exists, from how asking for it came out; nothing where that failed.
pub fn is_there(asked: Asked) -> (r: Option<bool>)
    ensures
        r == (match asked {
            Asked::Found => Some(true),
            Asked::NotFound => Some(false),
            Asked::Failed => None,
        }),
{
    match asked {
        Asked::Found => Some(true),
        Asked::NotFound => Some(false),
        Asked::Failed => None,
    }
}

/// Whether deleting a file succeeded, from how it came out: a file that is not there
/// is as good as deleted.
pub fn deleted(asked: Asked) -> (r: bool)
    ensures
        r == !(asked is Failed),
{
    match asked {
        Asked::Failed => false,
        _ => true,
    }
}

/// A file that is being written. It is kept here until it is closed.
pub struct S3FileWrite {
    pub buf: Vec<u8>,
    pub closed: bool,
}

impl S3FileWrite {
    /// A file of which nothing is written.
    pub fn new() -> (r: Self)
        ensures
            r.buf@.len() == 0,
            !r.closed,
    {
        S3FileWrite { buf: Vec::new(), closed: false }
    }

    /// Writes more of the file.
    pub fn write(&mut self, bytes: Vec<u8>) -> (r: Result<(), CatalogFault>)
        ensures
            final(self).closed == old(self).closed,
            match r {
                Ok(_) => !old(self).closed && final(self).buf@ == old(self).buf@ + bytes@,
                Err(e) => old(self).closed && final(self).buf == old(self).buf && (e matches CatalogFault::DataInvalid(
                    m,
                ) && m@ == "write after close"@),
            },
    {
        if self.closed {
            return Err(CatalogFault::DataInvalid("write after close".to_owned()));
        }
        let mut more: Vec<u8> = bytes;
        self.buf.append(&mut more);
        Ok(())
    }

    /// Closes the file and hands out all that was written, to be stored at once.
    pub fn close(&mut self) -> (r: Result<Vec<u8>, CatalogFault>)
        ensures
            final(self).closed,
            match r {
                Ok(all) => !old(self).closed && all@ == old(self).buf@ && final(self).buf@.len() == 0,
                Err(e) => old(self).closed && final(self).buf == old(self).buf && (e matches CatalogFault::DataInvalid(
                    m,
                ) && m@ == "double close"@),
            },
    {
        if self.closed {
            return Err(CatalogFault::DataInvalid("double close".to_owned()));
        }
        self.closed = true;
        let mut all: Vec<u8> = Vec::new();
        all.append(&mut self.buf);
        assert(all@ =~= old(self).buf@);
        Ok(all)
    }
}

} // verus!
