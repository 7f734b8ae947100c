//! The Redirect Resolver boundary: joining the configured CDN origin
//! with a request path so that exactly one slash stands at the boundary,
//! and parsing the joined text as an absolute URL through the `url`
//! crate.

use vstd::prelude::*;

verus! {

/// `s` without its trailing slashes.
pub open spec fn trim_end_slashes(s: Seq<char>) -> Seq<char>
    decreases s.len(),
{
    if s.len() > 0 && s.last() == '/' {
        trim_end_slashes(s.drop_last())
    } else {
        s
    }
}

/// `s` without its leading slashes.
pub open spec fn trim_start_slashes(s: Seq<char>) -> Seq<char>
    decreases s.len(),
{
    if s.len() > 0 && s[0] == '/' {
        trim_start_slashes(s.drop_first())
    } else {
        s
    }
}

/// The path text with each literal `+` percent-encoded, so that no
/// intermediate layer can decode it as a space. Other characters unsafe
/// in a path are left to the URL parser, which percent-encodes them.
pub open spec fn encode_plus(s: Seq<char>) -> Seq<char>
    decreases s.len(),
{
    if s.len() == 0 {
        Seq::<char>::empty()
    } else if s.last() == '+' {
        encode_plus(s.drop_last()) + "%2B"@
    } else {
        encode_plus(s.drop_last()) + seq![s.last()]
    }
}

/// The join of an origin and a path: exactly one slash at the boundary,
/// whatever each side brought, and every literal `+` of the path
/// percent-encoded.
pub open spec fn spec_join_cdn(cdn: Seq<char>, path: Seq<char>) -> Seq<char> {
    trim_end_slashes(cdn) + "/"@ + encode_plus(trim_start_slashes(path))
}

/// Appends the path text with each literal `+` percent-encoded, exactly
/// as `encode_plus` states.
fn append_plus_encoded(out: &mut String, s: &str)
    ensures
        final(out)@ == old(out)@ + encode_plus(s@),
{
    let len = s.unicode_len();
    let mut i: usize = 0;
    proof {
        assert(s@.subrange(0, 0) =~= Seq::<char>::empty());
        assert(out@ =~= old(out)@ + encode_plus(s@.subrange(0, 0)));
    }
    while i < len
        invariant
            i <= len,
            len == s@.len(),
            out@ == old(out)@ + encode_plus(s@.subrange(0, i as int)),
        decreases len - i,
    {
        let c = s.get_char(i);
        proof {
            assert(s@.subrange(0, i + 1).drop_last() =~= s@.subrange(0, i as int));
            assert(s@.subrange(0, i + 1).last() == s@[i as int]);
        }
        if c == '+' {
            out.append("%2B");
        } else {
            crate::text::push_char(out, c);
        }
        proof {
            assert(out@ =~= old(out)@ + encode_plus(s@.subrange(0, i + 1)));
        }
        i = i + 1;
    }
    proof {
        assert(s@.subrange(0, len as int) =~= s@);
    }
}

/// Borrows `s` without its trailing slashes, exactly as
/// `trim_end_slashes` states.
pub fn trim_trailing_slashes<'a>(s: &'a str) -> (r: &'a str)
    ensures
        r@ == trim_end_slashes(s@),
{
    let len = s.unicode_len();
    let mut e = len;
    proof {
        assert(s@.subrange(0, len as int) =~= s@);
    }
    while e > 0 && s.get_char(e - 1) == '/'
        invariant
            e <= len,
            len == s@.len(),
            trim_end_slashes(s@) == trim_end_slashes(s@.subrange(0, e as int)),
        decreases e,
    {
        proof {
            let t = s@.subrange(0, e as int);
            assert(t.last() == s@[e - 1]);
            assert(t.drop_last() =~= s@.subrange(0, e - 1));
        }
        e = e - 1;
    }
    proof {
        let t = s@.subrange(0, e as int);
        assert(trim_end_slashes(t) == t);
    }
    s.substring_char(0, e)
}

/// Joins the CDN origin and a request path with exactly one slash at the
/// boundary, percent-encoding every literal `+` of the path, exactly as
/// `spec_join_cdn` states.
pub fn join_cdn_path(cdn: &str, path: &str) -> (r: String)
    ensures
        r@ == spec_join_cdn(cdn@, path@),
{
    let head = trim_trailing_slashes(cdn);
    let plen = path.unicode_len();
    let mut b: usize = 0;
    proof {
        assert(path@.subrange(0, plen as int) =~= path@);
    }
    while b < plen && path.get_char(b) == '/'
        invariant
            b <= plen,
            plen == path@.len(),
            trim_start_slashes(path@) == trim_start_slashes(path@.subrange(b as int, plen as int)),
        decreases plen - b,
    {
        proof {
            let t = path@.subrange(b as int, plen as int);
            assert(t[0] == path@[b as int]);
            assert(t.drop_first() =~= path@.subrange(b + 1, plen as int));
        }
        b = b + 1;
    }
    proof {
        let t = path@.subrange(b as int, plen as int);
        assert(trim_start_slashes(t) == t);
    }
    let tail = path.substring_char(b, plen);
    let mut out = head.to_owned();
    out.append("/");
    append_plus_encoded(&mut out, tail);
    proof {
        assert(out@ =~= spec_join_cdn(cdn@, path@));
    }
    out
}

/// The relative path of a version download: the artifact hash, the
/// version and the file name under the data tree.
pub open spec fn spec_version_path(
    hash: Seq<char>,
    version: Seq<char>,
    file: Seq<char>,
) -> Seq<char> {
    "data/"@ + hash + "/versions/"@ + version + "/"@ + file
}

/// Builds the relative path of a version download, exactly as
/// `spec_version_path` states.
pub fn version_path(hash: &str, version: &str, file: &str) -> (r: String)
    ensures
        r@ == spec_version_path(hash@, version@, file@),
{
    let mut out = String::new();
    out.append("data/");
    out.append(hash);
    out.append("/versions/");
    out.append(version);
    out.append("/");
    out.append(file);
    proof {
        assert(out@ =~= spec_version_path(hash@, version@, file@));
    }
    out
}

/// What `url::Url::parse` yields for a given text: nothing when the text
/// is not an absolute URL, else the parsed URL's serialization. The
/// result is a function of the text alone.
pub uninterp spec fn url_normal_form(s: Seq<char>) -> Option<Seq<char>>;

/// Relies on `url::Url::parse` and the `String` conversion of `url::Url`,
/// which yields the parsed URL's serialization: both outcomes depend on
/// the input text alone.
#[verifier::external_body]
fn parse_absolute_url(s: &str) -> (r: Option<String>)
    ensures
        (r is Some) == (url_normal_form(s@) is Some),
        r matches Some(u) ==> u@ == url_normal_form(s@).unwrap(),
{
    match url::Url::parse(s) {
        Ok(u) => Some(String::from(u)),
        Err(_) => None,
    }
}

/// The final CDN URL for a request path: the origin and the path joined
/// with exactly one slash, every literal `+` of the path
/// percent-encoded, and the joined text parsed as an absolute URL.
/// `None` exactly when the joined text is no absolute URL (a malformed
/// configured origin), which the host surfaces as a server error.
pub fn make_cdn_url(cdn: &str, path: &str) -> (r: Option<String>)
    ensures
        (r is Some) == (url_normal_form(spec_join_cdn(cdn@, path@)) is Some),
        r matches Some(u) ==> u@ == url_normal_form(spec_join_cdn(cdn@, path@)).unwrap(),
{
    let joined = join_cdn_path(cdn, path);
    parse_absolute_url(joined.as_str())
}

} // verus!
