use vstd::prelude::*;
use vstd::utf8::encode_utf8;
use vstd::utf8::valid_utf8;
use vstd::utf8::decode_utf8;
use vstd::utf8::encode_utf8_decode_utf8;
use crate::hpack::fields_view;
use crate::http1::add_header_value;
use crate::http1::code_spec;
use crate::http1::header_added;
use crate::http1::names_unique;
use crate::http1::parse_code;
use crate::shared::known_method;
use crate::shared::HttpClient;
use crate::shared::HttpMethod;
use crate::shared::HttpResponse;
use crate::shared::LibError;
use crate::text::format_number;
use crate::writer::bytes_of;
use crate::writer::method_bytes;

verus! {

/// Relies on `String::from_utf8`: the text of `b` when it is valid UTF-8, holding
/// exactly those bytes; `None` otherwise.
#[verifier::external_body]
fn utf8_string(b: Vec<u8>) -> (r: Option<String>)
    ensures
        r is Some <==> valid_utf8(b@),
        r matches Some(s) ==> encode_utf8(s@) == b@,
{
    String::from_utf8(b).ok()
}

/// The bytes of a string.
fn string_bytes(s: &String) -> (r: Vec<u8>)
    ensures
        r@ == bytes_of(*s),
{
    let b = s.as_str().as_bytes();
    let mut v: Vec<u8> = Vec::new();
    v.extend_from_slice(b);
    assert(v@ =~= bytes_of(*s));
    v
}

/// The method a `:method` value names: a known one ignoring case, else `Unknown`
/// holding the value.
pub open spec fn method_from_text(value: Seq<char>, m: HttpMethod) -> bool {
    match known_method(encode_utf8(value)) {
        Some(k) => m == k,
        None => m matches HttpMethod::Unknown(Some(s)) && s@ == value,
    }
}

/// How one field changes a request: the pseudo-headers `:method`, `:scheme`,
/// `:authority` and `:path` set their parts, any other field is added to the
/// headers; nothing else changes.
pub open spec fn request_field_step(a: HttpClient, b: HttpClient, name: Seq<char>, value: Seq<char>) -> bool {
    if name == ":method"@ {
        b == (HttpClient { method: b.method, ..a }) && method_from_text(value, b.method)
    } else if name == ":scheme"@ {
        b == (HttpClient { scheme: b.scheme, ..a }) && (b.scheme matches Some(s) && s@ == value)
    } else if name == ":authority"@ {
        b == (HttpClient { host: b.host, ..a }) && (b.host matches Some(s) && s@ == value)
    } else if name == ":path"@ {
        b == (HttpClient { path: b.path, ..a }) && b.path@ == value
    } else {
        b == (HttpClient { headers: b.headers, ..a }) && header_added(a.headers@, b.headers@, name, value)
    }
}

/// Each state follows from the one before by applying the next field, as UTF-8
/// text.
pub open spec fn request_trace(states: Seq<HttpClient>, fs: Seq<(Seq<u8>, Seq<u8>)>) -> bool {
    &&& states.len() == fs.len() + 1
    &&& forall|k: int| 0 <= k < fs.len() ==> #[trigger] request_field_step(states[k], states[k + 1], decode_utf8(fs[k].0), decode_utf8(fs[k].1))
}

/// `b` is `a` with the fields, as UTF-8 text, applied in order.
pub open spec fn request_fields_applied(a: HttpClient, b: HttpClient, fs: Seq<(Seq<u8>, Seq<u8>)>) -> bool {
    exists|states: Seq<HttpClient>| #[trigger] request_trace(states, fs) && states[0] == a && states.last() == b
}

/// How one field changes a response: `:status` sets the code (zero when it is not
/// a number below 65536), any other field is added to the headers.
pub open spec fn response_field_step(a: HttpResponse, b: HttpResponse, name: Seq<char>, value: Seq<char>) -> bool {
    if name == ":status"@ {
        b == (HttpResponse { code: code_spec(encode_utf8(value)), ..a })
    } else {
        b == (HttpResponse { headers: b.headers, ..a }) && header_added(a.headers@, b.headers@, name, value)
    }
}

/// Each state follows from the one before by applying the next field, as UTF-8
/// text.
pub open spec fn response_trace(states: Seq<HttpResponse>, fs: Seq<(Seq<u8>, Seq<u8>)>) -> bool {
    &&& states.len() == fs.len() + 1
    &&& forall|k: int| 0 <= k < fs.len() ==> #[trigger] response_field_step(states[k], states[k + 1], decode_utf8(fs[k].0), decode_utf8(fs[k].1))
}

/// `b` is `a` with the fields, as UTF-8 text, applied in order.
pub open spec fn response_fields_applied(a: HttpResponse, b: HttpResponse, fs: Seq<(Seq<u8>, Seq<u8>)>) -> bool {
    exists|states: Seq<HttpResponse>| #[trigger] response_trace(states, fs) && states[0] == a && states.last() == b
}

proof fn lemma_pseudo_names()
    ensures
        ":method"@ != ":scheme"@ && ":method"@ != ":authority"@ && ":method"@ != ":path"@,
        ":scheme"@ != ":authority"@ && ":scheme"@ != ":path"@ && ":authority"@ != ":path"@,
{
    reveal_strlit(":method");
    reveal_strlit(":scheme");
    reveal_strlit(":authority");
    reveal_strlit(":path");
    assert(":method"@[1] == 'm');
    assert(":scheme"@[1] == 's');
    assert(":authority"@[1] == 'a');
    assert(":path"@[1] == 'p');
}

/// Applies one decoded field of a request head.
pub fn apply_request_field(client: &mut HttpClient, name: String, value: String)
    requires
        names_unique(old(client).headers@),
    ensures
        names_unique(final(client).headers@),
        request_field_step(*old(client), *final(client), name@, value@),
{
    proof {
        lemma_pseudo_names();
    }
    if name == ":method".to_owned() {
        client.method = HttpMethod::from(value.as_str());
    } else if name == ":scheme".to_owned() {
        client.scheme = Some(value);
    } else if name == ":authority".to_owned() {
        client.host = Some(value);
    } else if name == ":path".to_owned() {
        client.path = value;
    } else {
        add_header_value(&mut client.headers, name, value);
    }
}

/// Applies the decoded fields of a request head in order; `InvalidString` as soon
/// as a name or value is not UTF-8.
pub fn apply_request_fields(client: &mut HttpClient, fields: Vec<(Vec<u8>, Vec<u8>)>) -> (r: Result<(), LibError>)
    requires
        names_unique(old(client).headers@),
    ensures
        names_unique(final(client).headers@),
        r is Ok <==> forall|i: int| 0 <= i < fields@.len() ==> valid_utf8((#[trigger] fields@[i]).0@) && valid_utf8(fields@[i].1@),
        r is Err ==> r matches Err(LibError::InvalidString),
        r is Ok ==> request_fields_applied(*old(client), *final(client), fields_view(fields@)),
{
    let mut i: usize = 0;
    let n = fields.len();
    let mut rest = fields;
    let ghost all = rest@;
    let ghost mut states = seq![*client];
    proof {
        assert(fields_view(all).subrange(0, 0) =~= Seq::<(Seq<u8>, Seq<u8>)>::empty());
    }
    while rest.len() > 0
        invariant
            names_unique(client.headers@),
            i <= n,
            n == all.len(),
            all == fields@,
            rest@ == all.subrange(i as int, n as int),
            forall|k: int| 0 <= k < i ==> valid_utf8((#[trigger] all[k]).0@) && valid_utf8(all[k].1@),
            request_trace(states, fields_view(all).subrange(0, i as int)),
            states[0] == *old(client),
            states.last() == *client,
        decreases rest@.len(),
    {
        let (h, v) = rest.remove(0);
        proof {
            assert(all[i as int] == (h, v));
            assert(rest@ =~= all.subrange(i + 1, n as int));
        }
        let ghost hb = h@;
        let ghost vb = v@;
        let ok_h = utf8_string(h);
        let ok_v = utf8_string(v);
        match (ok_h, ok_v) {
            (Some(name), Some(value)) => {
                let ghost before = *client;
                let ghost nv = name@;
                let ghost vv = value@;
                proof {
                    encode_utf8_decode_utf8(name@);
                    encode_utf8_decode_utf8(value@);
                }
                apply_request_field(client, name, value);
                proof {
                    let pre = fields_view(all).subrange(0, i as int);
                    let t = fields_view(all).subrange(0, i + 1);
                    assert(t.last() == (hb, vb));
                    assert(decode_utf8(hb) == nv && decode_utf8(vb) == vv);
                    let ns = states.push(*client);
                    assert forall|k: int| 0 <= k < t.len() implies #[trigger] request_field_step(ns[k], ns[k + 1], decode_utf8(t[k].0), decode_utf8(t[k].1)) by {
                        if k < pre.len() {
                            assert(t[k] == pre[k]);
                            assert(ns[k] == states[k] && ns[k + 1] == states[k + 1]);
                            assert(request_field_step(states[k], states[k + 1], decode_utf8(pre[k].0), decode_utf8(pre[k].1)));
                        } else {
                            assert(ns[k] == before && ns[k + 1] == *client);
                        }
                    }
                    states = ns;
                }
            },
            _ => {
                proof {
                    assert(!(valid_utf8(all[i as int].0@) && valid_utf8(all[i as int].1@)));
                }
                return Err(LibError::InvalidString);
            },
        }
        i += 1;
    }
    proof {
        assert(fields_view(all).subrange(0, n as int) =~= fields_view(all));
        assert(request_trace(states, fields_view(fields@)));
    }
    Ok(())
}

/// Applies one decoded field of a response head.
pub fn apply_response_field(res: &mut HttpResponse, name: String, value: String)
    requires
        names_unique(old(res).headers@),
    ensures
        names_unique(final(res).headers@),
        response_field_step(*old(res), *final(res), name@, value@),
{
    if name == ":status".to_owned() {
        res.code = parse_code(value.as_str().as_bytes());
    } else {
        add_header_value(&mut res.headers, name, value);
    }
}

/// Applies the decoded fields of a response head in order; `InvalidString` as soon
/// as a name or value is not UTF-8.
pub fn apply_response_fields(res: &mut HttpResponse, fields: Vec<(Vec<u8>, Vec<u8>)>) -> (r: Result<(), LibError>)
    requires
        names_unique(old(res).headers@),
    ensures
        names_unique(final(res).headers@),
        r is Ok <==> forall|i: int| 0 <= i < fields@.len() ==> valid_utf8((#[trigger] fields@[i]).0@) && valid_utf8(fields@[i].1@),
        r is Err ==> r matches Err(LibError::InvalidString),
        r is Ok ==> response_fields_applied(*old(res), *final(res), fields_view(fields@)),
{
    let mut i: usize = 0;
    let n = fields.len();
    let mut rest = fields;
    let ghost all = rest@;
    let ghost mut states = seq![*res];
    proof {
        assert(fields_view(all).subrange(0, 0) =~= Seq::<(Seq<u8>, Seq<u8>)>::empty());
    }
    while rest.len() > 0
        invariant
            names_unique(res.headers@),
            i <= n,
            n == all.len(),
            all == fields@,
            rest@ == all.subrange(i as int, n as int),
            forall|k: int| 0 <= k < i ==> valid_utf8((#[trigger] all[k]).0@) && valid_utf8(all[k].1@),
            response_trace(states, fields_view(all).subrange(0, i as int)),
            states[0] == *old(res),
            states.last() == *res,
        decreases rest@.len(),
    {
        let (h, v) = rest.remove(0);
        proof {
            assert(all[i as int] == (h, v));
            assert(rest@ =~= all.subrange(i + 1, n as int));
        }
        let ghost hb = h@;
        let ghost vb = v@;
        let ok_h = utf8_string(h);
        let ok_v = utf8_string(v);
        match (ok_h, ok_v) {
            (Some(name), Some(value)) => {
                let ghost before = *res;
                let ghost nv = name@;
                let ghost vv = value@;
                proof {
                    encode_utf8_decode_utf8(name@);
                    encode_utf8_decode_utf8(value@);
                }
                apply_response_field(res, name, value);
                proof {
                    let pre = fields_view(all).subrange(0, i as int);
                    let t = fields_view(all).subrange(0, i + 1);
                    assert(t.last() == (hb, vb));
                    assert(decode_utf8(hb) == nv && decode_utf8(vb) == vv);
                    let ns = states.push(*res);
                    assert forall|k: int| 0 <= k < t.len() implies #[trigger] response_field_step(ns[k], ns[k + 1], decode_utf8(t[k].0), decode_utf8(t[k].1)) by {
                        if k < pre.len() {
                            assert(t[k] == pre[k]);
                            assert(ns[k] == states[k] && ns[k + 1] == states[k + 1]);
                            assert(response_field_step(states[k], states[k + 1], decode_utf8(pre[k].0), decode_utf8(pre[k].1)));
                        } else {
                            assert(ns[k] == before && ns[k + 1] == *res);
                        }
                    }
                    states = ns;
                }
            },
            _ => {
                proof {
                    assert(!(valid_utf8(all[i as int].0@) && valid_utf8(all[i as int].1@)));
                }
                return Err(LibError::InvalidString);
            },
        }
        i += 1;
    }
    proof {
        assert(fields_view(all).subrange(0, n as int) =~= fields_view(all));
        assert(response_trace(states, fields_view(fields@)));
    }
    Ok(())
}

/// Each value of each header as a field, in order.
pub open spec fn header_fields(h: Seq<(String, Vec<String>)>) -> Seq<(Seq<u8>, Seq<u8>)>
    decreases h.len(),
{
    if h.len() == 0 {
        seq![]
    } else {
        header_fields(h.drop_last()) + value_fields(h.last().0, h.last().1@)
    }
}

/// `(name, value)` for each value, in order.
pub open spec fn value_fields(name: String, vals: Seq<String>) -> Seq<(Seq<u8>, Seq<u8>)>
    decreases vals.len(),
{
    if vals.len() == 0 {
        seq![]
    } else {
        value_fields(name, vals.drop_last()).push((bytes_of(name), bytes_of(vals.last())))
    }
}

fn push_header_fields(out: &mut Vec<(Vec<u8>, Vec<u8>)>, headers: &Vec<(String, Vec<String>)>)
    ensures
        crate::hpack::fields_view(final(out)@) == crate::hpack::fields_view(old(out)@) + header_fields(headers@),
{
    let ghost base = crate::hpack::fields_view(out@);
    let mut i: usize = 0;
    assert(headers@.subrange(0, 0) =~= Seq::<(String, Vec<String>)>::empty());
    assert(base + Seq::<(Seq<u8>, Seq<u8>)>::empty() =~= base);
    while i < headers.len()
        invariant
            i <= headers@.len(),
            crate::hpack::fields_view(out@) == base + header_fields(headers@.subrange(0, i as int)),
        decreases headers@.len() - i,
    {
        let values = &headers[i].1;
        let ghost before = crate::hpack::fields_view(out@);
        let ghost name = headers@[i as int].0;
        let mut j: usize = 0;
        assert(before + Seq::<(Seq<u8>, Seq<u8>)>::empty() =~= before);
        assert(values@.subrange(0, 0) =~= Seq::<String>::empty());
        while j < values.len()
            invariant
                i < headers@.len(),
                j <= values@.len(),
                name == headers@[i as int].0,
                values@ == headers@[i as int].1@,
                crate::hpack::fields_view(out@) == before + value_fields(name, values@.subrange(0, j as int)),
            decreases values@.len() - j,
        {
            let nb = string_bytes(&headers[i].0);
            let vb = string_bytes(&values[j]);
            let ghost old_out = out@;
            let ghost nbv = nb@;
            let ghost vbv = vb@;
            out.push((nb, vb));
            proof {
                let t = values@.subrange(0, j + 1);
                assert(t.drop_last() =~= values@.subrange(0, j as int));
                assert(t.last() == values@[j as int]);
                assert(crate::hpack::fields_view(out@) =~= crate::hpack::fields_view(old_out).push((nbv, vbv)));
                assert(crate::hpack::fields_view(out@) =~= before + value_fields(name, t));
            }
            j += 1;
        }
        proof {
            assert(values@.subrange(0, values@.len() as int) =~= values@);
            let t = headers@.subrange(0, i + 1);
            assert(t.drop_last() =~= headers@.subrange(0, i as int));
            assert(crate::hpack::fields_view(out@) =~= base + header_fields(t));
        }
        i += 1;
    }
    assert(headers@.subrange(0, headers@.len() as int) =~= headers@);
}

/// The fields of a response head: `:status`, then each header value.
pub fn response_head_fields(status: u16, headers: &Vec<(String, Vec<String>)>) -> (r: Vec<(Vec<u8>, Vec<u8>)>)
    ensures
        crate::hpack::fields_view(r@) == seq![(encode_utf8(":status"@), crate::text::digits_of(status as nat, 10))] + header_fields(headers@),
{
    let mut out: Vec<(Vec<u8>, Vec<u8>)> = Vec::new();
    let name = string_bytes(&":status".to_owned());
    let code = format_number(status as usize, false);
    out.push((name, code));
    assert(crate::hpack::fields_view(out@) =~= seq![(encode_utf8(":status"@), crate::text::digits_of(status as nat, 10))]);
    push_header_fields(&mut out, headers);
    out
}

/// The fields of a request head: `:method`, `:scheme`, `:authority`, `:path`, then
/// each header value.
pub fn request_head_fields(method: &HttpMethod, scheme: &String, authority: &String, path: &String, headers: &Vec<(String, Vec<String>)>) -> (r: Vec<(Vec<u8>, Vec<u8>)>)
    ensures
        crate::hpack::fields_view(r@) == seq![
            (encode_utf8(":method"@), method_bytes(*method)),
            (encode_utf8(":scheme"@), bytes_of(*scheme)),
            (encode_utf8(":authority"@), bytes_of(*authority)),
            (encode_utf8(":path"@), bytes_of(*path)),
        ] + header_fields(headers@),
{
    let mut out: Vec<(Vec<u8>, Vec<u8>)> = Vec::new();
    out.push((string_bytes(&":method".to_owned()), string_bytes(&method.name())));
    out.push((string_bytes(&":scheme".to_owned()), string_bytes(scheme)));
    out.push((string_bytes(&":authority".to_owned()), string_bytes(authority)));
    out.push((string_bytes(&":path".to_owned()), string_bytes(path)));
    assert(crate::hpack::fields_view(out@) =~= seq![
        (encode_utf8(":method"@), method_bytes(*method)),
        (encode_utf8(":scheme"@), bytes_of(*scheme)),
        (encode_utf8(":authority"@), bytes_of(*authority)),
        (encode_utf8(":path"@), bytes_of(*path)),
    ]);
    push_header_fields(&mut out, headers);
    out
}

} // verus!
