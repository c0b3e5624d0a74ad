use vstd::prelude::*;
use vstd::string::StringSliceAdditionalSpecFns;

use md5::Digest;

use crate::connection::object1;
use crate::json::{as_str, get, Json, JsonV};
use crate::text::{ascii_lower_seq, cat, ends_with, ends_with_str, own, str_eq, to_ascii_lowercase};

verus! {

/// The MD5 digest of a byte string.
pub uninterp spec fn md5_of(data: Seq<u8>) -> Seq<u8>;

/// The MD5 digest of `data` (the `md-5` crate's `Md5`): sixteen bytes.
#[verifier::external_body]
fn md5_digest(data: &[u8]) -> (r: Vec<u8>)
    ensures
        r@ == md5_of(data@),
        r@.len() == 16,
{
    let mut hasher = md5::Md5::new();
    hasher.update(data);
    hasher.finalize().to_vec()
}

/// A lowercase hexadecimal digit.
pub open spec fn hex_digit(n: int) -> char {
    if n < 10 {
        (48 + n) as char
    } else {
        (87 + n) as char
    }
}

/// Bytes as lowercase hexadecimal, two digits each.
pub open spec fn hex_v(bs: Seq<u8>) -> Seq<char>
    decreases bs.len(),
{
    if bs.len() == 0 {
        Seq::empty()
    } else {
        hex_v(bs.drop_last()).push(hex_digit(bs.last() as int / 16)).push(hex_digit(bs.last() as int % 16))
    }
}

fn hex_char(n: u8) -> (c: char)
    requires
        n < 16,
    ensures
        c == hex_digit(n as int),
{
    if n < 10 {
        (48 + n) as char
    } else {
        (87 + n) as char
    }
}

/// Bytes as lowercase hexadecimal.
pub fn hex(bs: &[u8]) -> (r: String)
    ensures
        r@ == hex_v(bs@),
{
    let mut out = String::new();
    let mut i: usize = 0;
    assert(bs@.subrange(0, 0) =~= Seq::<u8>::empty());
    while i < bs.len()
        invariant
            i <= bs.len(),
            out@ == hex_v(bs@.subrange(0, i as int)),
        decreases bs.len() - i,
    {
        assert(bs@.subrange(0, i + 1).drop_last() =~= bs@.subrange(0, i as int));
        out.push(hex_char(bs[i] / 16));
        out.push(hex_char(bs[i] % 16));
        i += 1;
    }
    assert(bs@.subrange(0, bs.len() as int) =~= bs@);
    out
}

/// Where a provider's content comes from.
pub enum ProviderSource {
    /// An inline provider: the document holding its payload (under `rules`
    /// or `proxies`).
    Inline(Json),
    /// A binary `.mrs` rule set at this path, to convert with the core,
    /// read with this behaviour.
    Mrs { path: String, behavior: String },
    /// A text file at this path (relative to the config directory).
    File(String),
}

/// The provider named `name` in the running config's rule or proxy providers.
pub open spec fn provider_v(cfg: JsonV, name: Seq<char>, is_rule: bool) -> Option<JsonV> {
    match get(cfg, if is_rule { "rule-providers"@ } else { "proxy-providers"@ }) {
        Some(ps) => get(ps, name),
        None => None,
    }
}

pub open spec fn text_or_v(o: Option<Seq<char>>, d: Seq<char>) -> Seq<char> {
    match o {
        Some(s) => s,
        None => d,
    }
}

/// Where the content of provider `name` is read from: an inline provider's
/// payload; else its `path`, or `rules/<md5 of url>` (`proxies/…`) for a
/// remote one; a path ending in `.mrs` or an `mrs` format means a binary rule
/// set. The errors name a missing provider, or one without path or url.
pub open spec fn provider_source_ok(r: Result<ProviderSource, String>, cfg: JsonV, name: Seq<char>, is_rule: bool) -> bool {
    match provider_v(cfg, name, is_rule) {
        None => r matches Err(e) && e@ == "provider '"@ + name + "' not found in runtime config"@,
        Some(p) => {
            let vehicle = ascii_lower_seq(text_or_v(as_str(get(p, "type"@)), Seq::empty()));
            if vehicle == "inline"@ && get(p, "payload"@) is Some {
                r matches Ok(ProviderSource::Inline(doc)) && doc@ == JsonV::Object(
                    seq![(if is_rule { "rules"@ } else { "proxies"@ }, get(p, "payload"@)->0)],
                )
            } else {
                let behavior = text_or_v(as_str(get(p, "behavior"@)), "domain"@);
                let format = text_or_v(as_str(get(p, "format"@)), Seq::empty());
                let path = match as_str(get(p, "path"@)) {
                    Some(x) => Some(x),
                    None => match as_str(get(p, "url"@)) {
                        Some(u) => Some((if is_rule { "rules/"@ } else { "proxies/"@ }) + hex_v(md5_of(vstd::utf8::encode_utf8(u)))),
                        None => None,
                    },
                };
                match path {
                    None => r matches Err(e) && e@ == "provider has neither a path nor a url"@,
                    Some(path) => if ascii_lower_seq(format) == "mrs"@ || format == "MrsRule"@ || ends_with(
                        ascii_lower_seq(path),
                        ".mrs"@,
                    ) {
                        r matches Ok(ProviderSource::Mrs { path: a, behavior: b }) && a@ == path && b@ == behavior
                    } else {
                        r matches Ok(ProviderSource::File(a)) && a@ == path
                    },
                }
            }
        },
    }
}

fn text_of(j: Option<&Json>, default: &str) -> (r: String)
    ensures
        r@ == text_or_v(
            as_str(
                match j {
                    Some(x) => Some(x@),
                    None => None,
                },
            ),
            default@,
        ),
{
    match j {
        Some(x) => match x.as_str() {
            Some(s) => own(s),
            None => own(default),
        },
        None => own(default),
    }
}

/// Resolves where provider `name`'s content is read from (see
/// [`provider_source_ok`]).
pub fn provider_source(cfg: &Json, name: &str, is_rule: bool) -> (r: Result<ProviderSource, String>)
    ensures
        provider_source_ok(r, cfg@, name@, is_rule),
{
    proof {
        reveal_strlit("");
        assert(""@ =~= Seq::<char>::empty());
    }
    let key = if is_rule {
        "rule-providers"
    } else {
        "proxy-providers"
    };
    let p = match cfg.get(key) {
        Some(ps) => match ps.get(name) {
            Some(p) => p,
            None => {
                let mut e = cat("provider '", name);
                e.push_str("' not found in runtime config");
                return Err(e);
            },
        },
        None => {
            let mut e = cat("provider '", name);
            e.push_str("' not found in runtime config");
            return Err(e);
        },
    };
    let vehicle = to_ascii_lowercase(text_of(p.get("type"), "").as_str());
    if str_eq(vehicle.as_str(), "inline") {
        match p.get("payload") {
            Some(payload) => {
                let doc = object1(
                    if is_rule {
                        "rules"
                    } else {
                        "proxies"
                    },
                    payload.duplicate(),
                );
                return Ok(ProviderSource::Inline(doc));
            },
            None => {},
        }
    }
    let behavior = text_of(p.get("behavior"), "domain");
    let format = text_of(p.get("format"), "");
    let path = match p.get("path") {
        Some(v) => match v.as_str() {
            Some(x) => Some(own(x)),
            None => None,
        },
        None => None,
    };
    let path = match path {
        Some(x) => x,
        None => {
            let url = match p.get("url") {
                Some(v) => v.as_str(),
                None => None,
            };
            match url {
                Some(u) => {
                    let digest = md5_digest(u.as_bytes());
                    let h = hex(digest.as_slice());
                    cat(
                        if is_rule {
                            "rules/"
                        } else {
                            "proxies/"
                        },
                        h.as_str(),
                    )
                },
                None => return Err(own("provider has neither a path nor a url")),
            }
        },
    };
    let lower_format = to_ascii_lowercase(format.as_str());
    let lower_path = to_ascii_lowercase(path.as_str());
    if str_eq(lower_format.as_str(), "mrs") || str_eq(format.as_str(), "MrsRule") || ends_with_str(
        lower_path.as_str(),
        ".mrs",
    ) {
        Ok(ProviderSource::Mrs { path, behavior })
    } else {
        Ok(ProviderSource::File(path))
    }
}

/// `s` without its leading copies of `p`.
pub open spec fn drop_prefixes(s: Seq<char>, p: Seq<char>) -> Seq<char>
    decreases s.len(),
{
    if p.len() > 0 && crate::text::starts_with(s, p) {
        drop_prefixes(s.subrange(p.len() as int, s.len() as int), p)
    } else {
        s
    }
}

fn drop_prefixes_exec(s: &str, p: &str) -> (r: String)
    ensures
        r@ == drop_prefixes(s@, p@),
{
    let cs = crate::text::to_chars(s);
    let ps = crate::text::to_chars(p);
    if ps.len() == 0 {
        return own(s);
    }
    let mut a: usize = 0;
    assert(s@.subrange(0, s@.len() as int) =~= s@);
    while ps.len() <= cs.len() - a && crate::text::matches_at(cs.as_slice(), ps.as_slice(), a)
        invariant
            a <= cs.len(),
            cs@ == s@,
            ps@ == p@,
            ps@.len() > 0,
            drop_prefixes(s@, p@) == drop_prefixes(s@.subrange(a as int, s@.len() as int), p@),
        decreases cs.len() - a,
    {
        let ghost t = s@.subrange(a as int, s@.len() as int);
        assert(t.subrange(0, p@.len() as int) =~= s@.subrange(a as int, a + p@.len()));
        assert(t.subrange(p@.len() as int, t.len() as int) =~= s@.subrange(a + p@.len(), s@.len() as int));
        a += ps.len();
    }
    let ghost t = s@.subrange(a as int, s@.len() as int);
    if ps.len() <= cs.len() - a {
        assert(t.subrange(0, p@.len() as int) =~= s@.subrange(a as int, a + p@.len()));
    }
    crate::text::from_chars(crate::text::slice_range(cs.as_slice(), a, cs.len()).as_slice())
}

/// A provider path without its leading `./` (then `.\`) segments.
pub fn clean_provider_path(path: &str) -> (r: String)
    ensures
        r@ == drop_prefixes(drop_prefixes(path@, "./"@), ".\\"@),
{
    let a = drop_prefixes_exec(path, "./");
    drop_prefixes_exec(a.as_str(), ".\\")
}

/// Dropping leading copies of a prefix leaves a tail of the text that no
/// longer starts with it.
proof fn lemma_drop_prefixes(s: Seq<char>, p: Seq<char>)
    ensures
        drop_prefixes(s, p).len() <= s.len(),
        s.subrange(s.len() - drop_prefixes(s, p).len(), s.len() as int) == drop_prefixes(s, p),
        p.len() > 0 ==> !crate::text::starts_with(drop_prefixes(s, p), p),
    decreases s.len(),
{
    if p.len() > 0 && crate::text::starts_with(s, p) {
        let t = s.subrange(p.len() as int, s.len() as int);
        lemma_drop_prefixes(t, p);
        let r = drop_prefixes(t, p);
        assert(s.subrange(s.len() - r.len(), s.len() as int) =~= t.subrange(t.len() - r.len(), t.len() as int));
    } else {
        assert(s.subrange(0, s.len() as int) =~= s);
    }
}

/// Law: a cleaned provider path is a tail of the path given; it does not
/// start with `.\`
/// and, when no `.\` segment follows the leading `./` ones, not with `./`
/// either.
pub proof fn law_clean_provider_path(path: Seq<char>)
    ensures
        ({
            let a = drop_prefixes(path, "./"@);
            let r = drop_prefixes(a, ".\\"@);
            &&& r.len() <= path.len()
            &&& path.subrange(path.len() - r.len(), path.len() as int) == r
            &&& !crate::text::starts_with(r, ".\\"@)
            &&& !crate::text::starts_with(a, ".\\"@) ==> r == a && !crate::text::starts_with(r, "./"@)
        }),
{
    reveal_strlit("./");
    reveal_strlit(".\\");
    let a = drop_prefixes(path, "./"@);
    lemma_drop_prefixes(path, "./"@);
    lemma_drop_prefixes(a, ".\\"@);
    let r = drop_prefixes(a, ".\\"@);
    assert(path.subrange(path.len() - r.len(), path.len() as int) =~= a.subrange(a.len() - r.len(), a.len() as int));
}

} // verus!
