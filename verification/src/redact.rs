//! Header redaction for logs and previews: the one list of header names
//! treated as secret, shared by the runner and the command layer.
use vstd::prelude::*;

use crate::deps::{AuthConfig, Request};
use crate::template::{keys_of, pairs_view, Pairs};
use crate::text::{eq_ignore_ascii_case, eq_ignore_ascii_case_spec, owned};

verus! {

/// Header names whose values are never logged, compared ASCII
/// case-insensitively.
pub open spec fn is_secret_header(name: Seq<char>) -> bool {
    ||| eq_ignore_ascii_case_spec(name, "authorization"@)
    ||| eq_ignore_ascii_case_spec(name, "proxy-authorization"@)
    ||| eq_ignore_ascii_case_spec(name, "x-api-key"@)
    ||| eq_ignore_ascii_case_spec(name, "api-key"@)
    ||| eq_ignore_ascii_case_spec(name, "x-auth-token"@)
}

pub open spec fn redacted_view(h: Seq<(Seq<char>, Seq<char>)>) -> Seq<(Seq<char>, Seq<char>)> {
    h.map_values(
        |p: (Seq<char>, Seq<char>)|
            if is_secret_header(p.0) {
                (p.0, "<redacted>"@)
            } else {
                p
            },
    )
}

fn secret_header(name: &str) -> (r: bool)
    ensures
        r == is_secret_header(name@),
{
    eq_ignore_ascii_case(name, "authorization") || eq_ignore_ascii_case(name, "proxy-authorization")
        || eq_ignore_ascii_case(name, "x-api-key") || eq_ignore_ascii_case(name, "api-key")
        || eq_ignore_ascii_case(name, "x-auth-token")
}

/// Replaces the value of every secret header with `<redacted>`; names and
/// order are kept.
pub fn redact_known_secret_headers(headers: &mut Pairs)
    ensures
        pairs_view(final(headers)@) == redacted_view(pairs_view(old(headers)@)),
{
    let ghost orig = pairs_view(headers@);
    let mut i: usize = 0;
    while i < headers.len()
        invariant
            i <= headers@.len(),
            headers@.len() == orig.len(),
            forall|k: int| 0 <= k < i ==> pairs_view(headers@)[k] == #[trigger] redacted_view(orig)[k],
            forall|k: int| i <= k < headers@.len() ==> pairs_view(headers@)[k] == #[trigger] orig[k],
        decreases headers@.len() - i,
    {
        if secret_header(headers[i].0.as_str()) {
            let name = headers[i].0.clone();
            let ghost before = headers@;
            headers.set(i, (name, owned("<redacted>")));
            proof {
                assert forall|k: int| 0 <= k < headers@.len() && k != i implies headers@[k] == before[k] by {}
            }
        }
        proof {
            assert(pairs_view(headers@)[i as int] == redacted_view(orig)[i as int]);
        }
        i += 1;
    }
    assert(pairs_view(headers@) =~= redacted_view(orig));
}

/// Whether some header is named `name`, ASCII case-insensitively.
pub open spec fn has_header(h: Seq<(Seq<char>, Seq<char>)>, name: Seq<char>) -> bool {
    exists|k: int| 0 <= k < h.len() && eq_ignore_ascii_case_spec(#[trigger] h[k].0, name)
}

/// The headers after setting `name` to `masked`: every header of that name
/// (in any ASCII case) keeps its name and takes the value; with none, the
/// header is added.
pub open spec fn upserted(h: Seq<(Seq<char>, Seq<char>)>, name: Seq<char>, masked: Seq<char>) -> Seq<
    (Seq<char>, Seq<char>),
> {
    if has_header(h, name) {
        h.map_values(
            |p: (Seq<char>, Seq<char>)|
                if eq_ignore_ascii_case_spec(p.0, name) {
                    (p.0, masked)
                } else {
                    p
                },
        )
    } else {
        h.push((name, masked))
    }
}

/// Sets header `header_name` (matched ASCII case-insensitively, so no
/// second entry differing only by case appears) to `masked`, in every
/// entry that carries that name.
pub fn upsert_masked_header(headers: &mut Pairs, header_name: &str, masked: &str)
    ensures
        pairs_view(final(headers)@) == upserted(pairs_view(old(headers)@), header_name@, masked@),
{
    let ghost h = pairs_view(headers@);
    let ghost m = h.map_values(
        |p: (Seq<char>, Seq<char>)|
            if eq_ignore_ascii_case_spec(p.0, header_name@) {
                (p.0, masked@)
            } else {
                p
            },
    );
    let mut found = false;
    let mut i: usize = 0;
    while i < headers.len()
        invariant
            i <= headers@.len(),
            headers@.len() == h.len() == m.len(),
            h == pairs_view(old(headers)@),
            m == h.map_values(
                |p: (Seq<char>, Seq<char>)|
                    if eq_ignore_ascii_case_spec(p.0, header_name@) {
                        (p.0, masked@)
                    } else {
                        p
                    },
            ),
            forall|k: int| 0 <= k < i ==> pairs_view(headers@)[k] == #[trigger] m[k],
            forall|k: int| i <= k < headers@.len() ==> pairs_view(headers@)[k] == #[trigger] h[k],
            found == exists|k: int| 0 <= k < i && eq_ignore_ascii_case_spec(#[trigger] h[k].0, header_name@),
        decreases headers@.len() - i,
    {
        if eq_ignore_ascii_case(headers[i].0.as_str(), header_name) {
            let name = headers[i].0.clone();
            headers.set(i, (name, owned(masked)));
            found = true;
        }
        proof {
            assert(pairs_view(headers@)[i as int] == m[i as int]);
        }
        i += 1;
    }
    if found {
        assert(pairs_view(headers@) =~= m);
    } else {
        assert(!has_header(h, header_name@));
        let ghost before = headers@;
        assert(pairs_view(before) =~= h);
        headers.push((owned(header_name), owned(masked)));
        assert(pairs_view(headers@) =~= pairs_view(before).push((header_name@, masked@)));
    }
}

/// The headers of a request as they may be logged.
pub open spec fn log_headers(request: Request) -> Seq<(Seq<char>, Seq<char>)> {
    match request.auth {
            AuthConfig::NoAuth => redacted_view(pairs_view(request.headers@)),
            AuthConfig::Bearer { .. } => upserted(
                redacted_view(pairs_view(request.headers@)),
                "Authorization"@,
                "Bearer <redacted>"@,
            ),
            AuthConfig::Basic { .. } => upserted(
                redacted_view(pairs_view(request.headers@)),
                "Authorization"@,
                "Basic <redacted>"@,
            ),
            AuthConfig::CustomHeader { header_name, .. } => upserted(
                redacted_view(pairs_view(request.headers@)),
                header_name@,
                "<redacted>"@,
            ),
        }
}

proof fn lemma_log_keys_distinct(request: Request)
    requires
        keys_of(pairs_view(request.headers@)).no_duplicates(),
    ensures
        keys_of(log_headers(request)).no_duplicates(),
{
    let h = pairs_view(request.headers@);
    let red = redacted_view(h);
    assert(keys_of(red) =~= keys_of(h));
    let name: Seq<char> = match request.auth {
        AuthConfig::CustomHeader { header_name, .. } => header_name@,
        _ => "Authorization"@,
    };
    let masked: Seq<char> = match request.auth {
        AuthConfig::Bearer { .. } => "Bearer <redacted>"@,
        AuthConfig::Basic { .. } => "Basic <redacted>"@,
        _ => "<redacted>"@,
    };
    if !(request.auth is NoAuth) {
        assert(log_headers(request) == upserted(red, name, masked));
        if has_header(red, name) {
            assert(keys_of(upserted(red, name, masked)) =~= keys_of(red));
        } else {
            let u = upserted(red, name, masked);
            assert(keys_of(u) =~= keys_of(red).push(name));
            assert forall|k: int| 0 <= k < red.len() implies keys_of(red)[k] != name by {
                if keys_of(red)[k] == name {
                    assert(eq_ignore_ascii_case_spec(red[k].0, name));
                }
            }
            assert forall|i: int, j: int| 0 <= i < keys_of(u).len() && 0 <= j < keys_of(u).len() && i != j implies keys_of(u)[i]
                != keys_of(u)[j] by {
                if i < red.len() && j < red.len() {
                    assert(keys_of(u)[i] == keys_of(red)[i] && keys_of(u)[j] == keys_of(red)[j]);
                } else if i < red.len() {
                    assert(keys_of(u)[j] == name);
                    assert(keys_of(u)[i] == keys_of(red)[i]);
                } else {
                    assert(keys_of(u)[i] == name);
                    assert(keys_of(u)[j] == keys_of(red)[j]);
                }
            }
        }
    }
}

/// The request's headers as they may be logged: secret values redacted,
/// and the header its auth adds shown masked, so the log shows that auth
/// was applied without revealing it.
pub fn request_headers_for_log(request: &Request) -> (r: Pairs)
    ensures
        pairs_view(r@) == log_headers(*request),
        keys_of(pairs_view(request.headers@)).no_duplicates() ==> keys_of(pairs_view(r@)).no_duplicates(),
{
    proof {
        if keys_of(pairs_view(request.headers@)).no_duplicates() {
            lemma_log_keys_distinct(*request);
        }
    }
    let mut headers = crate::template::copy_pairs(&request.headers);
    redact_known_secret_headers(&mut headers);
    match &request.auth {
        AuthConfig::Bearer { .. } => {
            upsert_masked_header(&mut headers, "Authorization", "Bearer <redacted>");
        },
        AuthConfig::Basic { .. } => {
            upsert_masked_header(&mut headers, "Authorization", "Basic <redacted>");
        },
        AuthConfig::CustomHeader { header_name, .. } => {
            upsert_masked_header(&mut headers, header_name.as_str(), "<redacted>");
        },
        AuthConfig::NoAuth => {},
    }
    headers
}

/// The masked values the log may show for a secret.
pub open spec fn is_mask(v: Seq<char>) -> bool {
    v == "<redacted>"@ || v == "Bearer <redacted>"@ || v == "Basic <redacted>"@
}

proof fn lemma_upserted_keeps_masks(h: Seq<(Seq<char>, Seq<char>)>, name: Seq<char>, masked: Seq<char>)
    requires
        is_mask(masked),
        forall|k: int| 0 <= k < h.len() && is_secret_header(#[trigger] h[k].0) ==> is_mask(h[k].1),
    ensures
        forall|k: int|
            0 <= k < upserted(h, name, masked).len() && is_secret_header(#[trigger] upserted(h, name, masked)[k].0)
                ==> is_mask(upserted(h, name, masked)[k].1),
        forall|k: int|
            0 <= k < upserted(h, name, masked).len() && eq_ignore_ascii_case_spec(
                #[trigger] upserted(h, name, masked)[k].0,
                name,
            ) ==> upserted(h, name, masked)[k].1 == masked,
        exists|k: int|
            0 <= k < upserted(h, name, masked).len() && eq_ignore_ascii_case_spec(
                #[trigger] upserted(h, name, masked)[k].0,
                name,
            ) && upserted(h, name, masked)[k].1 == masked,
{
    let u = upserted(h, name, masked);
    if has_header(h, name) {
        let w = choose|k: int| 0 <= k < h.len() && eq_ignore_ascii_case_spec(#[trigger] h[k].0, name);
        assert(u[w].0 == h[w].0);
    } else {
        assert forall|k: int| 0 <= k < u.len() && is_secret_header(#[trigger] u[k].0) implies is_mask(u[k].1) by {
            if k < h.len() {
                assert(u[k] == h[k]);
            }
        }
        assert forall|k: int| 0 <= k < u.len() && eq_ignore_ascii_case_spec(#[trigger] u[k].0, name) implies u[k].1
            == masked by {
            if k < h.len() {
                assert(u[k] == h[k]);
            }
        }
        assert(u[h.len() as int].0 == name);
        assert(eq_ignore_ascii_case_spec(name, name));
    }
}

/// A logged request shows no secret: every header whose name is a known
/// secret header holds a masked value, and so does every header that
/// carries the auth header's name, in any ASCII case.
pub proof fn lemma_log_headers_hide_secrets(request: Request)
    ensures
        forall|k: int|
            0 <= k < log_headers(request).len() && is_secret_header(#[trigger] log_headers(request)[k].0) ==> is_mask(
                log_headers(request)[k].1,
            ),
        match request.auth {
            AuthConfig::CustomHeader { header_name, .. } => (exists|k: int|
                0 <= k < log_headers(request).len() && eq_ignore_ascii_case_spec(
                    #[trigger] log_headers(request)[k].0,
                    header_name@,
                ) && log_headers(request)[k].1 == "<redacted>"@) && forall|k: int|
                0 <= k < log_headers(request).len() && eq_ignore_ascii_case_spec(
                    #[trigger] log_headers(request)[k].0,
                    header_name@,
                ) ==> log_headers(request)[k].1 == "<redacted>"@,
            AuthConfig::Bearer { .. } => forall|k: int|
                0 <= k < log_headers(request).len() && eq_ignore_ascii_case_spec(
                    #[trigger] log_headers(request)[k].0,
                    "Authorization"@,
                ) ==> log_headers(request)[k].1 == "Bearer <redacted>"@,
            AuthConfig::Basic { .. } => forall|k: int|
                0 <= k < log_headers(request).len() && eq_ignore_ascii_case_spec(
                    #[trigger] log_headers(request)[k].0,
                    "Authorization"@,
                ) ==> log_headers(request)[k].1 == "Basic <redacted>"@,
            AuthConfig::NoAuth => true,
        },
{
    let h = redacted_view(pairs_view(request.headers@));
    assert forall|k: int| 0 <= k < h.len() && is_secret_header(#[trigger] h[k].0) implies is_mask(h[k].1) by {}
    match request.auth {
        AuthConfig::NoAuth => {},
        AuthConfig::Bearer { .. } => {
            lemma_upserted_keeps_masks(h, "Authorization"@, "Bearer <redacted>"@);
        },
        AuthConfig::Basic { .. } => {
            lemma_upserted_keeps_masks(h, "Authorization"@, "Basic <redacted>"@);
        },
        AuthConfig::CustomHeader { header_name, .. } => {
            lemma_upserted_keeps_masks(h, header_name@, "<redacted>"@);
            let u = upserted(h, header_name@, "<redacted>"@);
            assert(log_headers(request) == u);
            let k = choose|k: int|
                0 <= k < u.len() && eq_ignore_ascii_case_spec(#[trigger] u[k].0, header_name@) && u[k].1
                    == "<redacted>"@;
            assert(eq_ignore_ascii_case_spec(log_headers(request)[k].0, header_name@));
        },
    }
}

} // verus!
