use vstd::prelude::*;
use sha2::Digest;
use crate::text::{
    ascii_lower_seq, chars_eq_ignore_case, chars_of, eq_ignore_case, slice_chars, starts_with,
    string_of, to_ascii_lower_chars, trim, trim_chars,
};
use crate::storage::{hex, hex_chars};
use crate::versions::{SemVersion, SemView, incompatible_spec, package_incompatible_reason};

verus! {

// ----- checksums ------------------------------------------------------------

pub open spec fn sha_prefix() -> Seq<char> {
    seq!['s', 'h', 'a', '2', '5', '6', ':']
}

/// An expected checksum as compared: trimmed, a leading `sha256:` dropped,
/// trimmed again, ASCII lower-cased.
pub open spec fn normalized_sha(raw: Seq<char>) -> Seq<char> {
    let t = trim(raw);
    let rest = if sha_prefix().is_prefix_of(t) {
        t.skip(7)
    } else {
        t
    };
    ascii_lower_seq(trim(rest))
}

/// `normalize_sha256`.
pub fn normalize_sha256(raw: &str) -> (r: String)
    ensures
        r@ == normalized_sha(raw@),
{
    let c = chars_of(raw);
    let t = trim_chars(&c);
    let p = vec!['s', 'h', 'a', '2', '5', '6', ':'];
    assert(p@ == sha_prefix());
    let rest = if starts_with(&t, &p) {
        let s = slice_chars(&t, 7, t.len());
        assert(s@ == t@.skip(7));
        s
    } else {
        slice_chars(&t, 0, t.len())
    };
    assert(t@.subrange(0, t@.len() as int) =~= t@);
    let r = trim_chars(&rest);
    let l = to_ascii_lower_chars(&r);
    string_of(l.as_slice())
}

/// Name for the SHA-256 digest of some bytes (`sha2::Sha256::digest`).
pub uninterp spec fn sha256_of(data: Seq<u8>) -> Seq<u8>;

/// `sha2::Sha256::digest`. Trusted: the result is the SHA-256 digest of the
/// bytes, a function of the bytes alone, 32 bytes long (its type's length).
#[verifier::external_body]
fn sha256_digest(data: &[u8]) -> (r: Vec<u8>)
    ensures
        r@ == sha256_of(data@),
        r@.len() == 32,
{
    <sha2::Sha256 as Digest>::digest(data).to_vec()
}

/// A byte as two lower-case hexadecimal digits (`{:02x}`).
pub open spec fn byte_hex(b: u8) -> Seq<char> {
    if b < 16 {
        seq!['0'] + hex(b as nat)
    } else {
        hex(b as nat)
    }
}

/// Bytes as lower-case hexadecimal, two digits each.
pub open spec fn bytes_hex(v: Seq<u8>) -> Seq<char>
    decreases v.len(),
{
    if v.len() == 0 {
        Seq::empty()
    } else {
        bytes_hex(v.drop_last()) + byte_hex(v.last())
    }
}

/// The SHA-256 of some bytes in lower-case hexadecimal (`sha256_hex`).
pub fn sha256_hex(bytes: &[u8]) -> (r: String)
    ensures
        r@ == bytes_hex(sha256_of(bytes@)),
{
    let digest = sha256_digest(bytes);
    let mut out: Vec<char> = Vec::new();
    let mut i: usize = 0;
    assert(digest@.take(0) =~= Seq::<u8>::empty());
    while i < digest.len()
        invariant
            i <= digest.len(),
            out@ == bytes_hex(digest@.take(i as int)),
        decreases digest.len() - i,
    {
        assert(digest@.take(i + 1).drop_last() =~= digest@.take(i as int));
        let b = digest[i];
        let h = hex_chars(b as u64);
        if b < 16 {
            out.push('0');
        }
        let mut k: usize = 0;
        let ghost start = out@;
        while k < h.len()
            invariant
                k <= h.len(),
                out@ == start + h@.take(k as int),
            decreases h.len() - k,
        {
            out.push(h[k]);
            k = k + 1;
            assert(h@.take(k as int) =~= h@.take(k - 1).push(h@[k - 1]));
        }
        assert(h@.take(h.len() as int) =~= h@);
        i = i + 1;
    }
    assert(digest@.take(digest.len() as int) =~= digest@);
    string_of(out.as_slice())
}

/// A downloaded file whose checksum is not the expected one (both normalized).
#[derive(Debug)]
pub struct ChecksumMismatch {
    pub expected: String,
    pub actual: String,
}

/// Checks a download against its expected SHA-256 (`verify_download_sha256`):
/// a blank expectation passes.
pub fn verify_download_sha256(bytes: &[u8], expected: &str) -> (r: Result<(), ChecksumMismatch>)
    ensures
        match r {
            Ok(()) => normalized_sha(expected@).len() == 0 || bytes_hex(sha256_of(bytes@))
                == normalized_sha(expected@),
            Err(m) => normalized_sha(expected@).len() > 0 && m.expected@ == normalized_sha(
                expected@,
            ) && m.actual@ == bytes_hex(sha256_of(bytes@)) && m.actual@ != m.expected@,
        },
{
    let normalized = normalize_sha256(expected);
    let n = chars_of(normalized.as_str());
    if n.len() == 0 {
        return Ok(());
    }
    let actual = sha256_hex(bytes);
    let a = chars_of(actual.as_str());
    if !crate::text::chars_eq(&a, &n) {
        return Err(ChecksumMismatch { expected: normalized, actual });
    }
    Ok(())
}

// ----- addresses ------------------------------------------------------------

#[verifier::external_type_specification]
#[verifier::external_body]
pub struct ExUrl(reqwest::Url);

/// A parsed URL and its serialization.
pub struct RemoteUrl {
    text: String,
    parsed: reqwest::Url,
}

impl View for RemoteUrl {
    type V = Seq<char>;

    closed spec fn view(&self) -> Seq<char> {
        self.text@
    }
}

/// Name for what `Url::parse` gives for a text: the URL's serialization, or
/// the text of the parser's error.
pub uninterp spec fn url_parse(text: Seq<char>) -> Result<Seq<char>, Seq<char>>;

/// Name for what `Url::join` gives: the serialization of the joined URL, or the
/// text of the error; the base URL is given by its serialization, which
/// determines it.
pub uninterp spec fn url_join(base: Seq<char>, input: Seq<char>) -> Result<Seq<char>, Seq<char>>;

pub open spec fn url_view(r: Result<RemoteUrl, String>) -> Result<Seq<char>, Seq<char>> {
    match r {
        Ok(u) => Ok(u@),
        Err(m) => Err(m@),
    }
}

pub open spec fn text_view(r: Result<String, String>) -> Result<Seq<char>, Seq<char>> {
    match r {
        Ok(u) => Ok(u@),
        Err(m) => Err(m@),
    }
}

/// `reqwest::Url::parse`. Trusted: the result is the crate's reading of the
/// text (a function of the text alone), kept with its serialization, or the
/// text of its error.
#[verifier::external_body]
fn parse_url(text: &str) -> (r: Result<RemoteUrl, String>)
    ensures
        url_view(r) == url_parse(text@),
{
    match reqwest::Url::parse(text) {
        Ok(u) => Ok(RemoteUrl { text: u.as_str().to_string(), parsed: u }),
        Err(e) => Err(e.to_string()),
    }
}

/// `reqwest::Url::join`. Trusted: the result is the serialization of the URL
/// the crate resolves `input` to against `base`, or the text of its error.
#[verifier::external_body]
fn join_url(base: &RemoteUrl, input: &str) -> (r: Result<String, String>)
    ensures
        text_view(r) == url_join(base@, input@),
{
    match base.parsed.join(input) {
        Ok(u) => Ok(u.to_string()),
        Err(e) => Err(e.to_string()),
    }
}

/// Why a registry path cannot be resolved.
#[derive(Debug)]
pub enum UrlError {
    /// The path is blank.
    EmptyPath,
    /// The base URL does not parse (the base, the message).
    InvalidBase { base: String, message: String },
    /// The path does not join onto the base (the base, the trimmed path, the message).
    JoinFailed { base: String, path: String, message: String },
}

/// The mathematical value of a `UrlError`.
pub enum UrlFault {
    EmptyPath,
    InvalidBase(Seq<char>, Seq<char>),
    JoinFailed(Seq<char>, Seq<char>, Seq<char>),
}

impl View for UrlError {
    type V = UrlFault;

    open spec fn view(&self) -> UrlFault {
        match self {
            UrlError::EmptyPath => UrlFault::EmptyPath,
            UrlError::InvalidBase { base, message } => UrlFault::InvalidBase(base@, message@),
            UrlError::JoinFailed { base, path, message } => UrlFault::JoinFailed(
                base@,
                path@,
                message@,
            ),
        }
    }
}

/// What `resolve_remote_url` gives: the trimmed path joined onto the base URL.
pub open spec fn resolved_url(base: Seq<char>, path: Seq<char>) -> Result<Seq<char>, UrlFault> {
    let t = trim(path);
    if t.len() == 0 {
        Err(UrlFault::EmptyPath)
    } else {
        match url_parse(base) {
            Err(m) => Err(UrlFault::InvalidBase(base, m)),
            Ok(b) => match url_join(b, t) {
                Err(m) => Err(UrlFault::JoinFailed(base, t, m)),
                Ok(u) => Ok(u),
            },
        }
    }
}

/// Resolves a path of the registry against the URL it was listed in
/// (`resolve_remote_url`).
pub fn resolve_remote_url(base_url: &str, relative_or_absolute: &str) -> (r: Result<
    String,
    UrlError,
>)
    ensures
        match r {
            Ok(u) => resolved_url(base_url@, relative_or_absolute@) == Ok::<Seq<char>, UrlFault>(
                u@,
            ),
            Err(e) => resolved_url(base_url@, relative_or_absolute@) == Err::<Seq<char>, UrlFault>(
                e@,
            ),
        },
{
    let c = chars_of(relative_or_absolute);
    let t = trim_chars(&c);
    if t.len() == 0 {
        return Err(UrlError::EmptyPath);
    }
    let text = string_of(t.as_slice());
    let base_text = string_of(chars_of(base_url).as_slice());
    let base = match parse_url(base_url) {
        Ok(b) => b,
        Err(message) => {
            return Err(UrlError::InvalidBase { base: base_text, message });
        },
    };
    match join_url(&base, text.as_str()) {
        Ok(u) => Ok(u),
        Err(message) => Err(UrlError::JoinFailed { base: base_text, path: text, message }),
    }
}

// ----- the remote catalog ---------------------------------------------------

/// One `[[PackLists]]` entry of a registry index.
#[derive(Debug)]
pub struct RemoteRegistryPackList {
    pub game: String,
    pub index: Vec<String>,
    pub name: String,
    pub desc: String,
}

/// One `[[Packages]]` entry of a package list.
#[derive(Debug)]
pub struct RemotePackageEntry {
    pub id: String,
    pub name: String,
    pub author: String,
    pub desc: String,
    pub tag: String,
    pub version: i64,
    pub url: String,
    pub sha256: String,
    pub min_version: String,
}

/// A remote package as shown to the user.
#[derive(Debug)]
pub struct RemotePackageSummary {
    pub id: String,
    pub name: String,
    pub author: String,
    pub desc: String,
    pub tag: String,
    pub version: i64,
    pub url: String,
    pub sha256: String,
    pub min_version: String,
    /// The manager version the package requires, when this manager is older.
    pub incompatible_reason: Option<SemVersion>,
}

/// Why a remote catalog cannot be loaded.
#[derive(Debug)]
pub enum CatalogError {
    /// The registry address is blank.
    EmptyRegistry,
    /// The instance has no game to match.
    EmptyGame,
    /// A listed path does not resolve.
    Url(UrlError),
}

/// The mathematical value of a `CatalogError`.
pub enum CatalogFault {
    EmptyRegistry,
    EmptyGame,
    Url(UrlFault),
}

impl View for CatalogError {
    type V = CatalogFault;

    open spec fn view(&self) -> CatalogFault {
        match self {
            CatalogError::EmptyRegistry => CatalogFault::EmptyRegistry,
            CatalogError::EmptyGame => CatalogFault::EmptyGame,
            CatalogError::Url(e) => CatalogFault::Url(e@),
        }
    }
}

/// The trimmed registry address and game of a catalog request, both required
/// (the catalog's checks).
pub fn catalog_request(registry_url: &str, game: &str) -> (r: Result<(String, String), CatalogError>)
    ensures
        match r {
            Ok((u, g)) => u@ == trim(registry_url@) && u@.len() > 0 && g@ == trim(game@)
                && g@.len() > 0,
            Err(e) => (e is EmptyRegistry && trim(registry_url@).len() == 0) || (e is EmptyGame
                && trim(registry_url@).len() > 0 && trim(game@).len() == 0),
        },
{
    let u = trim_chars(&chars_of(registry_url));
    if u.len() == 0 {
        return Err(CatalogError::EmptyRegistry);
    }
    let g = trim_chars(&chars_of(game));
    if g.len() == 0 {
        return Err(CatalogError::EmptyGame);
    }
    Ok((string_of(u.as_slice()), string_of(g.as_slice())))
}

/// The first `j` paths of a list resolved against `base`, or the first refusal.
pub open spec fn resolved_upto(base: Seq<char>, paths: Seq<String>, j: nat) -> Result<
    Seq<Seq<char>>,
    UrlFault,
>
    decreases j,
{
    if j == 0 {
        Ok(Seq::empty())
    } else {
        match resolved_upto(base, paths, (j - 1) as nat) {
            Err(e) => Err(e),
            Ok(acc) => match resolved_url(base, paths[j - 1]@) {
                Err(e) => Err(e),
                Ok(u) => Ok(acc.push(u)),
            },
        }
    }
}

/// The catalog's name, description and package-list addresses from the first
/// `i` pack lists: the lists for the game (compared trimmed, up to ASCII case)
/// give the first non-blank trimmed name and description, and all their index
/// paths resolved against the registry address, in order.
pub open spec fn catalog_upto(
    index_url: Seq<char>,
    game: Seq<char>,
    lists: Seq<RemoteRegistryPackList>,
    i: nat,
) -> Result<(Seq<char>, Seq<char>, Seq<Seq<char>>), UrlFault>
    decreases i,
{
    if i == 0 {
        Ok((Seq::empty(), Seq::empty(), Seq::empty()))
    } else {
        match catalog_upto(index_url, game, lists, (i - 1) as nat) {
            Err(e) => Err(e),
            Ok((name, desc, urls)) => {
                let l = lists[i - 1];
                if !eq_ignore_case(trim(l.game@), game) {
                    Ok((name, desc, urls))
                } else {
                    let name2 = if name.len() == 0 {
                        trim(l.name@)
                    } else {
                        name
                    };
                    let desc2 = if desc.len() == 0 {
                        trim(l.desc@)
                    } else {
                        desc
                    };
                    match resolved_upto(index_url, l.index@, l.index@.len()) {
                        Err(e) => Err(e),
                        Ok(more) => Ok((name2, desc2, urls + more)),
                    }
                }
            },
        }
    }
}

proof fn lemma_resolved_err(base: Seq<char>, paths: Seq<String>, i: nat, j: nat)
    requires
        i <= j,
        resolved_upto(base, paths, i) is Err,
    ensures
        resolved_upto(base, paths, j) == resolved_upto(base, paths, i),
    decreases j,
{
    if j > i {
        lemma_resolved_err(base, paths, i, (j - 1) as nat);
    }
}

proof fn lemma_catalog_err(
    index_url: Seq<char>,
    game: Seq<char>,
    lists: Seq<RemoteRegistryPackList>,
    i: nat,
    j: nat,
)
    requires
        i <= j,
        catalog_upto(index_url, game, lists, i) is Err,
    ensures
        catalog_upto(index_url, game, lists, j) == catalog_upto(index_url, game, lists, i),
    decreases j,
{
    if j > i {
        lemma_catalog_err(index_url, game, lists, i, (j - 1) as nat);
    }
}

/// Every path of a list resolved against `base`, in order.
pub fn resolve_all(base: &str, paths: &Vec<String>) -> (r: Result<Vec<String>, UrlError>)
    ensures
        match r {
            Ok(v) => resolved_upto(base@, paths@, paths@.len()) == Ok::<Seq<Seq<char>>, UrlFault>(
                crate::model::strs(v@),
            ),
            Err(e) => resolved_upto(base@, paths@, paths@.len()) == Err::<Seq<Seq<char>>, UrlFault>(
                e@,
            ),
        },
{
    let mut out: Vec<String> = Vec::new();
    let mut j: usize = 0;
    assert(crate::model::strs(out@) =~= Seq::<Seq<char>>::empty());
    while j < paths.len()
        invariant
            j <= paths.len(),
            resolved_upto(base@, paths@, j as nat) == Ok::<Seq<Seq<char>>, UrlFault>(
                crate::model::strs(out@),
            ),
        decreases paths.len() - j,
    {
        match resolve_remote_url(base, paths[j].as_str()) {
            Err(e) => {
                proof {
                    lemma_resolved_err(base@, paths@, (j + 1) as nat, paths@.len());
                }
                return Err(e);
            },
            Ok(u) => {
                let ghost before = crate::model::strs(out@);
                let ghost uv = u@;
                out.push(u);
                assert(crate::model::strs(out@) =~= before.push(uv));
            },
        }
        j = j + 1;
    }
    Ok(out)
}

/// The catalog's name, description and package-list addresses for a game
/// (the index part of the catalog).
pub fn catalog_lists(index_url: &str, game: &str, lists: &Vec<RemoteRegistryPackList>) -> (r:
    Result<(String, String, Vec<String>), CatalogError>)
    ensures
        match r {
            Ok((n, d, u)) => catalog_upto(index_url@, game@, lists@, lists@.len()) == Ok::<
                (Seq<char>, Seq<char>, Seq<Seq<char>>),
                UrlFault,
            >((n@, d@, crate::model::strs(u@))),
            Err(e) => e is Url && catalog_upto(index_url@, game@, lists@, lists@.len()) == Err::<
                (Seq<char>, Seq<char>, Seq<Seq<char>>),
                UrlFault,
            >(e->Url_0@),
        },
{
    let g = chars_of(game);
    let mut name: Vec<char> = Vec::new();
    let mut desc: Vec<char> = Vec::new();
    let mut urls: Vec<String> = Vec::new();
    let mut i: usize = 0;
    assert(crate::model::strs(urls@) =~= Seq::<Seq<char>>::empty());
    while i < lists.len()
        invariant
            i <= lists.len(),
            g@ == game@,
            catalog_upto(index_url@, game@, lists@, i as nat) == Ok::<
                (Seq<char>, Seq<char>, Seq<Seq<char>>),
                UrlFault,
            >((name@, desc@, crate::model::strs(urls@))),
        decreases lists.len() - i,
    {
        let l = &lists[i];
        let lg = trim_chars(&chars_of(l.game.as_str()));
        if chars_eq_ignore_case(&lg, &g) {
            if name.len() == 0 {
                name = trim_chars(&chars_of(l.name.as_str()));
            }
            if desc.len() == 0 {
                desc = trim_chars(&chars_of(l.desc.as_str()));
            }
            match resolve_all(index_url, &l.index) {
                Err(e) => {
                    proof {
                        lemma_catalog_err(index_url@, game@, lists@, (i + 1) as nat, lists@.len());
                    }
                    return Err(CatalogError::Url(e));
                },
                Ok(more) => {
                    let ghost before = crate::model::strs(urls@);
                    let mut k: usize = 0;
                    while k < more.len()
                        invariant
                            k <= more.len(),
                            crate::model::strs(urls@) == before + crate::model::strs(more@).take(
                                k as int,
                            ),
                        decreases more.len() - k,
                    {
                        let ghost old = crate::model::strs(urls@);
                        let item = more[k].clone();
                        assert(item@ == more@[k as int]@);
                        urls.push(item);
                        assert(crate::model::strs(urls@) =~= old.push(more@[k as int]@));
                        assert(crate::model::strs(more@).take(k + 1) =~= crate::model::strs(
                            more@,
                        ).take(k as int).push(more@[k as int]@));
                        k = k + 1;
                    }
                    assert(crate::model::strs(more@).take(more.len() as int) =~= crate::model::strs(
                        more@,
                    ));
                },
            }
        }
        i = i + 1;
    }
    Ok((string_of(name.as_slice()), string_of(desc.as_slice()), urls))
}

/// The packages of one list with their addresses resolved against the list's
/// address, in order (the list part of the catalog).
pub fn catalog_packages(list_url: &str, entries: Vec<RemotePackageEntry>) -> (r: Result<
    Vec<RemotePackageEntry>,
    UrlError,
>)
    ensures
        match r {
            Ok(v) => v@.len() == entries@.len() && forall|k: int|
                0 <= k < v@.len() ==> resolved_url(list_url@, entries@[k].url@) == Ok::<
                    Seq<char>,
                    UrlFault,
                >((#[trigger] v@[k]).url@) && v@[k] == (RemotePackageEntry {
                    url: v@[k].url,
                    ..entries@[k]
                }),
            Err(e) => exists|k: int|
                0 <= k < entries@.len() && resolved_url(list_url@, (#[trigger] entries@[k]).url@)
                    == Err::<Seq<char>, UrlFault>(e@) && forall|j: int|
                    0 <= j < k ==> resolved_url(list_url@, entries@[j].url@) is Ok,
        },
{
    let ghost orig = entries@;
    let n = entries.len();
    let mut rest = entries;
    let mut out: Vec<RemotePackageEntry> = Vec::new();
    while rest.len() > 0
        invariant
            n == orig.len(),
            orig == entries@,
            rest@ == orig.subrange(n - rest.len(), n as int),
            out@.len() == n - rest.len(),
            forall|k: int|
                0 <= k < out@.len() ==> resolved_url(list_url@, orig[k].url@) == Ok::<
                    Seq<char>,
                    UrlFault,
                >((#[trigger] out@[k]).url@) && out@[k] == (RemotePackageEntry {
                    url: out@[k].url,
                    ..orig[k]
                }),
        decreases rest.len(),
    {
        let ghost i = n - rest.len();
        let mut e = rest.remove(0);
        assert(e == orig[i]);
        match resolve_remote_url(list_url, e.url.as_str()) {
            Err(err) => {
                assert forall|j: int| 0 <= j < i implies resolved_url(list_url@, orig[j].url@) is Ok by {
                    assert(resolved_url(list_url@, orig[j].url@) == Ok::<Seq<char>, UrlFault>(
                        out@[j].url@,
                    ));
                }
                return Err(err);
            },
            Ok(u) => {
                e.url = u;
                out.push(e);
            },
        }
        assert(rest@ =~= orig.subrange(n - rest.len(), n as int));
    }
    Ok(out)
}

/// A remote package as shown: every text trimmed, and the version it requires
/// when this manager is older (the catalog's summaries).
pub fn package_summary(entry: &RemotePackageEntry) -> (r: RemotePackageSummary)
    ensures
        r.id@ == trim(entry.id@),
        r.name@ == trim(entry.name@),
        r.author@ == trim(entry.author@),
        r.desc@ == trim(entry.desc@),
        r.tag@ == trim(entry.tag@),
        r.version == entry.version,
        r.url@ == trim(entry.url@),
        r.sha256@ == trim(entry.sha256@),
        r.min_version@ == trim(entry.min_version@),
        match r.incompatible_reason {
            Some(v) => incompatible_spec(entry.min_version@) == Some(v@),
            None => incompatible_spec(entry.min_version@) is None,
        },
{
    RemotePackageSummary {
        id: crate::text::trim_str(entry.id.as_str()),
        name: crate::text::trim_str(entry.name.as_str()),
        author: crate::text::trim_str(entry.author.as_str()),
        desc: crate::text::trim_str(entry.desc.as_str()),
        tag: crate::text::trim_str(entry.tag.as_str()),
        version: entry.version,
        url: crate::text::trim_str(entry.url.as_str()),
        sha256: crate::text::trim_str(entry.sha256.as_str()),
        min_version: crate::text::trim_str(entry.min_version.as_str()),
        incompatible_reason: package_incompatible_reason(entry.min_version.as_str()),
    }
}

} // verus!
