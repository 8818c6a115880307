//! Request routing for the LAN service: which handler a method and path
//! reach, the class identifier parsed out of a roster path, and the
//! static-file decisions (path cleaning, content types). The socket and the
//! filesystem live outside the library.

use vstd::prelude::*;
use vstd::string::StrSliceExecFns;

verus! {

/// The request methods the service distinguishes.
#[derive(Clone, Copy, PartialEq, Eq, Structural, Debug)]
pub enum RequestMethod {
    Get,
    Post,
    Options,
    Other,
}

/// Where a request is routed.
#[derive(PartialEq, Eq, Structural, Debug)]
pub enum Route {
    Status,
    Classes,
    ClassFull(i64),
    GradesBatch,
    Events,
    RootRedirect,
    StaticAsset,
    CorsPreflight,
    NotFound,
}

/// Whether every character is a decimal digit.
pub open spec fn all_digits(s: Seq<char>) -> bool {
    forall|i: int| 0 <= i < s.len() ==> 48 <= (#[trigger] s[i]) as int <= 57
}

/// The number a digit string denotes.
pub open spec fn digits_val(s: Seq<char>) -> int
    decreases s.len(),
{
    if s.len() == 0 {
        0
    } else {
        digits_val(s.drop_last()) * 10 + (s.last() as int - 48)
    }
}

/// A digit string denotes a non-negative number.
pub proof fn lemma_digits_nonneg(s: Seq<char>)
    requires
        all_digits(s),
    ensures
        digits_val(s) >= 0,
    decreases s.len(),
{
    if s.len() > 0 {
        let p = s.drop_last();
        assert forall|i: int| 0 <= i < p.len() implies 48 <= (#[trigger] p[i]) as int <= 57 by {
            assert(p[i] == s[i]);
        }
        lemma_digits_nonneg(p);
    }
}

/// Dropping trailing digits never increases the denoted number.
pub proof fn lemma_digits_prefix(s: Seq<char>, k: int)
    requires
        all_digits(s),
        0 <= k <= s.len(),
    ensures
        digits_val(s.take(k)) <= digits_val(s),
    decreases s.len(),
{
    if k == s.len() {
        assert(s.take(k) =~= s);
    } else {
        let p = s.drop_last();
        assert forall|i: int| 0 <= i < p.len() implies 48 <= (#[trigger] p[i]) as int <= 57 by {
            assert(p[i] == s[i]);
        }
        assert(s.take(k) =~= p.take(k));
        lemma_digits_prefix(p, k);
        lemma_digits_nonneg(p);
        assert(digits_val(s) == digits_val(p) * 10 + (s.last() as int - 48));
        assert(digits_val(p) * 10 >= digits_val(p));
    }
}

/// The class identifier in a roster path `/api/classes/{id}/full`: present
/// when the path has that exact shape, the identifier is all digits, and it
/// fits a 64-bit value.
pub open spec fn class_full_id(path: Seq<char>) -> Option<int> {
    let pre = "/api/classes/"@;
    let suf = "/full"@;
    if path.len() > pre.len() + suf.len() && path.subrange(0, pre.len() as int) == pre
        && path.subrange((path.len() - suf.len()) as int, path.len() as int) == suf {
        let mid = path.subrange(pre.len() as int, (path.len() - suf.len()) as int);
        if mid.len() > 0 && all_digits(mid) && digits_val(mid) <= i64::MAX {
            Some(digits_val(mid))
        } else {
            None
        }
    } else {
        None
    }
}

/// Where a request lands: the API routes by exact path, the roster route by
/// its parsed identifier, the static routes by prefix, a cross-origin
/// preflight by method, and everything else nowhere.
pub open spec fn spec_route(m: RequestMethod, path: Seq<char>) -> Route {
    if m == RequestMethod::Get && path == "/api/status"@ {
        Route::Status
    } else if m == RequestMethod::Get && path == "/api/classes"@ {
        Route::Classes
    } else if m == RequestMethod::Get && class_full_id(path) is Some {
        Route::ClassFull(class_full_id(path)->Some_0 as i64)
    } else if m == RequestMethod::Post && path == "/api/grades/batch"@ {
        Route::GradesBatch
    } else if m == RequestMethod::Get && path == "/api/events"@ {
        Route::Events
    } else if m == RequestMethod::Get && path == "/"@ {
        Route::RootRedirect
    } else if m == RequestMethod::Get && (is_prefix("/mobile"@, path) || is_prefix(
        "/assets/"@,
        path,
    ) || is_prefix("/icons/"@, path)) {
        Route::StaticAsset
    } else if m == RequestMethod::Options {
        Route::CorsPreflight
    } else {
        Route::NotFound
    }
}

/// Whether one string starts with another.
pub open spec fn is_prefix(pre: Seq<char>, s: Seq<char>) -> bool {
    s.len() >= pre.len() && s.subrange(0, pre.len() as int) == pre
}

/// Whether one string ends with another.
pub open spec fn is_suffix(suf: Seq<char>, s: Seq<char>) -> bool {
    s.len() >= suf.len() && s.subrange((s.len() - suf.len()) as int, s.len() as int) == suf
}

fn str_eq_str(a: &str, b: &str) -> (r: bool)
    ensures
        r == (a@ == b@),
{
    let la = a.unicode_len();
    let lb = b.unicode_len();
    if la != lb {
        return false;
    }
    let mut i: usize = 0;
    while i < la
        invariant
            la == a@.len(),
            la == b@.len(),
            i <= la,
            forall|j: int| 0 <= j < i ==> a@[j] == b@[j],
        decreases la - i,
    {
        if a.get_char(i) != b.get_char(i) {
            return false;
        }
        i = i + 1;
    }
    proof {
        assert(a@ =~= b@);
    }
    true
}

fn str_has_prefix(s: &str, pre: &str) -> (r: bool)
    ensures
        r == is_prefix(pre@, s@),
{
    let ls = s.unicode_len();
    let lp = pre.unicode_len();
    if ls < lp {
        return false;
    }
    let mut i: usize = 0;
    while i < lp
        invariant
            ls == s@.len(),
            lp == pre@.len(),
            lp <= ls,
            i <= lp,
            forall|j: int| 0 <= j < i ==> s@[j] == pre@[j],
        decreases lp - i,
    {
        if s.get_char(i) != pre.get_char(i) {
            proof {
                assert(s@.subrange(0, pre@.len() as int)[i as int] != pre@[i as int]);
            }
            return false;
        }
        i = i + 1;
    }
    proof {
        assert(s@.subrange(0, pre@.len() as int) =~= pre@);
    }
    true
}

fn str_has_suffix(s: &str, suf: &str) -> (r: bool)
    ensures
        r == is_suffix(suf@, s@),
{
    let ls = s.unicode_len();
    let lf = suf.unicode_len();
    if ls < lf {
        return false;
    }
    let base = ls - lf;
    let mut i: usize = 0;
    while i < lf
        invariant
            ls == s@.len(),
            lf == suf@.len(),
            lf <= ls,
            base == ls - lf,
            i <= lf,
            forall|j: int| 0 <= j < i ==> s@[base + j] == suf@[j],
        decreases lf - i,
    {
        if s.get_char(base + i) != suf.get_char(i) {
            proof {
                assert(s@.subrange((s@.len() - suf@.len()) as int, s@.len() as int)[i as int]
                    == s@[base + i]);
            }
            return false;
        }
        i = i + 1;
    }
    proof {
        assert(s@.subrange((s@.len() - suf@.len()) as int, s@.len() as int) =~= suf@);
    }
    true
}

fn parse_digits(s: &str, from: usize, to: usize) -> (r: Option<i64>)
    requires
        from <= to <= s@.len(),
    ensures
        ({
            let mid = s@.subrange(from as int, to as int);
            match r {
                Some(v) => to > from && all_digits(mid) && v == digits_val(mid) && v <= i64::MAX,
                None => !(to > from && all_digits(mid) && digits_val(mid) <= i64::MAX),
            }
        }),
{
    let ghost mid = s@.subrange(from as int, to as int);
    if to == from {
        return None;
    }
    let mut acc: i64 = 0;
    let mut i: usize = from;
    while i < to
        invariant
            from <= i <= to <= s@.len(),
            mid == s@.subrange(from as int, to as int),
            forall|j: int| 0 <= j < i - from ==> 48 <= (#[trigger] mid[j]) as int <= 57,
            acc == digits_val(mid.take(i - from)),
            acc >= 0,
        decreases to - i,
    {
        let c = s.get_char(i);
        let cv: u32 = c as u32;
        proof {
            assert(mid[i - from] == s@[i as int]);
        }
        if cv < 48 || cv > 57 {
            proof {
                assert(48 <= (mid[i - from]) as int <= 57 ==> false);
            }
            return None;
        }
        let d: i64 = (cv - 48) as i64;
        proof {
            assert(mid.take(i - from + 1).drop_last() =~= mid.take(i - from));
            assert(mid.take(i - from + 1).last() == mid[i - from]);
        }
        if acc > (i64::MAX - d) / 10 {
            proof {
                let k = i - from + 1;
                assert(digits_val(mid.take(k)) == acc * 10 + d);
                assert(acc * 10 + d > i64::MAX) by (nonlinear_arith)
                    requires
                        acc > (i64::MAX - d) / 10,
                        0 <= d <= 9,
                        acc >= 0,
                {
                }
                if all_digits(mid) {
                    lemma_digits_prefix(mid, k);
                    assert(digits_val(mid) >= digits_val(mid.take(k)));
                }
            }
            return None;
        }
        acc = acc * 10 + d;
        i = i + 1;
    }
    proof {
        assert(mid.take(to - from) =~= mid);
    }
    Some(acc)
}

/// Routes one request.
pub fn route_request(m: RequestMethod, path: &str) -> (r: Route)
    ensures
        r == spec_route(m, path@),
{
    let is_get = match m {
        RequestMethod::Get => true,
        _ => false,
    };
    let is_post = match m {
        RequestMethod::Post => true,
        _ => false,
    };
    let is_options = match m {
        RequestMethod::Options => true,
        _ => false,
    };
    if is_get && str_eq_str(path, "/api/status") {
        return Route::Status;
    }
    if is_get && str_eq_str(path, "/api/classes") {
        return Route::Classes;
    }
    if is_get {
        let pre = "/api/classes/";
        let suf = "/full";
        let lp = pre.unicode_len();
        let lf = suf.unicode_len();
        let ls = path.unicode_len();
        proof {
            reveal_strlit("/api/classes/");
            reveal_strlit("/full");
        }
        if ls > lp + lf && str_has_prefix(path, pre) && str_has_suffix(path, suf) {
            match parse_digits(path, lp, ls - lf) {
                Some(id) => {
                    return Route::ClassFull(id);
                },
                None => {},
            }
        } else {
            proof {
                assert(class_full_id(path@) is None);
            }
        }
    }
    if is_post && str_eq_str(path, "/api/grades/batch") {
        return Route::GradesBatch;
    }
    if is_get && str_eq_str(path, "/api/events") {
        return Route::Events;
    }
    if is_get && str_eq_str(path, "/") {
        return Route::RootRedirect;
    }
    if is_get && (str_has_prefix(path, "/mobile") || str_has_prefix(path, "/assets/")
        || str_has_prefix(path, "/icons/")) {
        return Route::StaticAsset;
    }
    if is_options {
        return Route::CorsPreflight;
    }
    Route::NotFound
}

/// A path with its leading slashes removed.
pub open spec fn drop_leading_slashes(s: Seq<char>) -> Seq<char>
    decreases s.len(),
{
    if s.len() > 0 && s[0] == '/' {
        drop_leading_slashes(s.drop_first())
    } else {
        s
    }
}

/// The file a static-asset path resolves to, relative to the asset root:
/// the mobile app's paths lose their prefix, and any other path loses its
/// leading slashes.
pub open spec fn spec_clean_path(p: Seq<char>) -> Seq<char> {
    let pre = "/mobile/"@;
    if is_prefix(pre, p) {
        p.subrange(pre.len() as int, p.len() as int)
    } else if p == "/mobile"@ {
        Seq::empty()
    } else {
        drop_leading_slashes(p)
    }
}

/// Cleans a static-asset path for lookup under the asset root.
pub fn clean_static_path(p: &str) -> (r: String)
    ensures
        r@ == spec_clean_path(p@),
{
    let pre = "/mobile/";
    if str_has_prefix(p, pre) {
        let lp = pre.unicode_len();
        let l = p.unicode_len();
        let sub = p.substring_char(lp, l);
        sub.to_owned()
    } else if str_eq_str(p, "/mobile") {
        String::new()
    } else {
        let l = p.unicode_len();
        let mut i: usize = 0;
        proof {
            assert(p@.skip(0) =~= p@);
        }
        while i < l && p.get_char(i) == '/'
            invariant
                l == p@.len(),
                i <= l,
                drop_leading_slashes(p@) == drop_leading_slashes(p@.skip(i as int)),
            decreases l - i,
        {
            proof {
                assert(p@.skip(i as int)[0] == p@[i as int]);
                assert(p@.skip(i as int).drop_first() =~= p@.skip(i + 1));
            }
            i = i + 1;
        }
        proof {
            if i < l {
                assert(p@.skip(i as int)[0] == p@[i as int]);
            }
            assert(drop_leading_slashes(p@.skip(i as int)) == p@.skip(i as int));
        }
        let sub = p.substring_char(i, l);
        proof {
            assert(sub@ =~= p@.skip(i as int));
        }
        sub.to_owned()
    }
}

/// The content type served for a file extension.
pub open spec fn spec_mime_type(ext: Seq<char>) -> Seq<char> {
    if ext == "html"@ {
        "text/html"@
    } else if ext == "js"@ {
        "application/javascript"@
    } else if ext == "css"@ {
        "text/css"@
    } else if ext == "png"@ {
        "image/png"@
    } else if ext == "jpg"@ || ext == "jpeg"@ {
        "image/jpeg"@
    } else if ext == "svg"@ {
        "image/svg+xml"@
    } else if ext == "json"@ {
        "application/json"@
    } else {
        "application/octet-stream"@
    }
}

/// Picks the content type for a file extension.
pub fn mime_type_for(ext: &str) -> (r: &'static str)
    ensures
        r@ == spec_mime_type(ext@),
{
    if str_eq_str(ext, "html") {
        "text/html"
    } else if str_eq_str(ext, "js") {
        "application/javascript"
    } else if str_eq_str(ext, "css") {
        "text/css"
    } else if str_eq_str(ext, "png") {
        "image/png"
    } else if str_eq_str(ext, "jpg") || str_eq_str(ext, "jpeg") {
        "image/jpeg"
    } else if str_eq_str(ext, "svg") {
        "image/svg+xml"
    } else if str_eq_str(ext, "json") {
        "application/json"
    } else {
        "application/octet-stream"
    }
}

} // verus!
