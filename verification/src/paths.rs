//! Canonical request paths: percent-decoding, the API version prefix, and the removal of empty
//! and dot segments.
use crate::text;
use vstd::prelude::*;
use vstd::slice::slice_subrange;
use vstd::utf8::*;

verus! {

/// The longest path, and the longest query, in bytes.
pub const MAX_PATH_LEN: usize = 8192;

/// `String::from_utf8` gives back the text that the bytes encode, or an error where they are not
/// UTF-8.
#[verifier::external_body]
fn utf8_text(bytes: Vec<u8>) -> (r: Option<String>)
    ensures
        match r {
            Some(s) => valid_utf8(bytes@) && s@ == decode_utf8(bytes@),
            None => !valid_utf8(bytes@),
        },
{
    String::from_utf8(bytes).ok()
}

/// The value of a hexadecimal digit.
pub open spec fn hex_value(b: u8) -> Option<u8> {
    if 0x30 <= b <= 0x39 {
        Some((b - 0x30) as u8)
    } else if 0x41 <= b <= 0x46 {
        Some((b - 0x41 + 10) as u8)
    } else if 0x61 <= b <= 0x66 {
        Some((b - 0x61 + 10) as u8)
    } else {
        None
    }
}

fn hex_digit(b: u8) -> (r: Option<u8>)
    ensures
        r == hex_value(b),
{
    if 0x30 <= b && b <= 0x39 {
        Some(b - 0x30)
    } else if 0x41 <= b && b <= 0x46 {
        Some(b - 0x41 + 10)
    } else if 0x61 <= b && b <= 0x66 {
        Some(b - 0x61 + 10)
    } else {
        None
    }
}

/// `b` with each `%XY` replaced by the byte with that hexadecimal value. Nothing where a percent
/// sign is not followed by two hexadecimal digits.
pub open spec fn decoded(b: Seq<u8>) -> Option<Seq<u8>>
    decreases b.len(),
{
    if b.len() == 0 {
        Some(seq![])
    } else if b[0] == 0x25 {
        if b.len() < 3 {
            None
        } else {
            match (hex_value(b[1]), hex_value(b[2]), decoded(b.skip(3))) {
                (Some(h), Some(l), Some(rest)) => Some(seq![(h * 16 + l) as u8] + rest),
                _ => None,
            }
        }
    } else {
        match decoded(b.skip(1)) {
            Some(rest) => Some(seq![b[0]] + rest),
            None => None,
        }
    }
}

/// `head` before the decoded bytes, where there are any.
spec fn after_head(head: Seq<u8>, rest: Option<Seq<u8>>) -> Option<Seq<u8>> {
    match rest {
        Some(r) => Some(head + r),
        None => None,
    }
}

/// The bytes of a text with each percent sequence replaced by the byte that it stands for.
pub fn percent_decode(s: &str) -> (r: Option<Vec<u8>>)
    ensures
        match r {
            Some(v) => decoded(encode_utf8(s@)) == Some(v@),
            None => decoded(encode_utf8(s@)) is None,
        },
{
    let bytes = s.as_bytes();
    let mut out: Vec<u8> = Vec::new();
    let mut i: usize = 0;
    assert(bytes@.skip(0) == bytes@);
    assert(after_head(out@, decoded(bytes@.skip(0))) == decoded(bytes@)) by {
        if decoded(bytes@) is Some {
            assert(out@ + decoded(bytes@)->0 =~= decoded(bytes@)->0);
        }
    }
    while i < bytes.len()
        invariant
            i <= bytes@.len(),
            bytes@ == encode_utf8(s@),
            after_head(out@, decoded(bytes@.skip(i as int))) == decoded(bytes@),
        decreases bytes@.len() - i,
    {
        let b = bytes[i];
        let ghost rest = bytes@.skip(i as int);
        let ghost head = out@;
        if b == 0x25 {
            if bytes.len() - i < 3 {
                return None;
            }
            match (hex_digit(bytes[i + 1]), hex_digit(bytes[i + 2])) {
                (Some(h), Some(l)) => {
                    assert(h < 16 && l < 16);
                    out.push(h * 16 + l);
                    assert(rest.skip(3) == bytes@.skip(i + 3));
                    assert(after_head(out@, decoded(rest.skip(3))) == after_head(
                        head,
                        decoded(rest),
                    )) by {
                        if let Some(t) = decoded(rest.skip(3)) {
                            assert(out@ + t =~= head + (seq![(h * 16 + l) as u8] + t));
                        }
                    }
                    i += 3;
                },
                _ => {
                    return None;
                },
            }
        } else {
            out.push(b);
            assert(rest.skip(1) == bytes@.skip(i + 1));
            assert(after_head(out@, decoded(rest.skip(1))) == after_head(head, decoded(rest))) by {
                if let Some(t) = decoded(rest.skip(1)) {
                    assert(out@ + t =~= head + (seq![b] + t));
                }
            }
            i += 1;
        }
    }
    assert(bytes@.skip(i as int) =~= seq![]);
    assert(out@ + seq![] =~= out@);
    Some(out)
}

/// The bytes that neither a path nor a query may hold.
pub open spec fn is_control(b: u8) -> bool {
    b < 0x20 || b == 0x7f
}

/// Whether a byte that neither a path nor a query may hold is among these.
pub open spec fn has_control(b: Seq<u8>) -> bool {
    exists|i: int| 0 <= i < b.len() && is_control(#[trigger] b[i])
}

fn contains_control(b: &[u8]) -> (r: bool)
    ensures
        r == has_control(b@),
{
    let mut i: usize = 0;
    while i < b.len()
        invariant
            i <= b@.len(),
            forall|j: int| 0 <= j < i ==> !is_control(#[trigger] b@[j]),
        decreases b@.len() - i,
    {
        if b[i] < 0x20 || b[i] == 0x7f {
            assert(is_control(b@[i as int]));
            return true;
        }
        i += 1;
    }
    false
}

/// The characters of a version number.
pub open spec fn is_version_char(c: char) -> bool {
    text::is_digit(c) || c == '.'
}

/// Whether `v` can be a version number: digits and dots, and more than a single dot.
pub open spec fn is_version(v: Seq<char>) -> bool {
    &&& v.len() > 0
    &&& v != seq!['.']
    &&& forall|i: int| 0 <= i < v.len() ==> is_version_char(#[trigger] v[i])
}

/// `p` without a leading `/v<version>` that a slash follows.
pub open spec fn without_version(p: Seq<char>) -> Seq<char> {
    let rest = p.skip(2);
    let i = text::find_char(rest, '/');
    if p.len() >= 2 && p[0] == '/' && p[1] == 'v' && i < rest.len() && is_version(rest.take(i)) {
        rest.skip(i)
    } else {
        p
    }
}

fn looks_like_version(v: &[char]) -> (r: bool)
    ensures
        r == is_version(v@),
{
    if v.len() == 0 {
        return false;
    }
    if v.len() == 1 && v[0] == '.' {
        assert(v@ =~= seq!['.']);
        return false;
    }
    let mut i: usize = 0;
    while i < v.len()
        invariant
            i <= v@.len(),
            forall|j: int| 0 <= j < i ==> is_version_char(#[trigger] v@[j]),
        decreases v@.len() - i,
    {
        let c = v[i];
        if !(c == '.' || ('0' <= c && c <= '9')) {
            assert(!is_version_char(v@[i as int]));
            return false;
        }
        i += 1;
    }
    assert(v@ != seq!['.']) by {
        if v@ == seq!['.'] {
            assert(v@.len() == 1 && v@[0] == '.');
        }
    }
    true
}

/// The path without a leading version of the API.
pub fn strip_api_version_prefix(path: &str) -> (r: &str)
    ensures
        r@ == without_version(path@),
{
    let p = text::chars_of(path);
    if p.len() < 2 || p[0] != '/' || p[1] != 'v' {
        return path;
    }
    let rest = slice_subrange(p.as_slice(), 2, p.len());
    assert(rest@ == p@.skip(2));
    let n = text::position_of(rest, '/');
    if n < rest.len() && looks_like_version(slice_subrange(rest, 0, n)) {
        assert(rest@.subrange(0, n as int) == rest@.take(n as int));
        let stripped = path.substring_char(2 + n, p.len());
        assert(stripped@ =~= rest@.skip(n as int));
        return stripped;
    }
    assert(rest@.subrange(0, n as int) == rest@.take(n as int));
    path
}

/// Whether a segment stands for the directory that it is in.
pub open spec fn is_dot(seg: Seq<char>) -> bool {
    seg == seq!['.']
}

/// Whether a segment stands for the directory above.
pub open spec fn is_dot_dot(seg: Seq<char>) -> bool {
    seg == seq!['.', '.']
}

/// The segments that remain when empty and `.` segments are dropped and each `..` takes the
/// segment before it along.
pub open spec fn resolved(segs: Seq<Seq<char>>) -> Seq<Seq<char>>
    decreases segs.len(),
{
    if segs.len() == 0 {
        seq![]
    } else {
        let done = resolved(segs.drop_last());
        let s = segs.last();
        if s.len() == 0 || is_dot(s) {
            done
        } else if is_dot_dot(s) {
            if done.len() > 0 {
                done.drop_last()
            } else {
                done
            }
        } else {
            done.push(s)
        }
    }
}

/// The path made of these segments, with or without a slash at its end.
pub open spec fn path_of(segs: Seq<Seq<char>>, trailing: bool) -> Seq<char> {
    let p = seq!['/'] + text::join(segs, seq!['/']);
    if trailing && p.len() > 1 {
        p.push('/')
    } else {
        p
    }
}

/// `p` with its segments resolved and a slash at its end kept.
pub open spec fn normalized(p: Seq<char>) -> Seq<char> {
    path_of(resolved(text::split(p, '/')), p.len() > 1 && p.last() == '/')
}

/// The canonical form of a raw request path, where it has one.
pub open spec fn canonical(raw: Seq<char>) -> Option<Seq<char>> {
    if raw.len() == 0 || raw[0] != '/' || encode_utf8(raw).len() > MAX_PATH_LEN {
        None
    } else {
        match decoded(encode_utf8(raw)) {
            Some(b) => if has_control(b) || !valid_utf8(b) {
                None
            } else {
                Some(normalized(without_version(decode_utf8(b))))
            },
            None => None,
        }
    }
}

fn resolve_segments(parts: Vec<Vec<char>>) -> (r: Vec<Vec<char>>)
    ensures
        text::texts(r@) == resolved(text::texts(parts@)),
{
    let mut out: Vec<Vec<char>> = Vec::new();
    let ghost all = text::texts(parts@);
    let mut i: usize = 0;
    assert(text::texts(out@) =~= resolved(all.take(0)));
    while i < parts.len()
        invariant
            i <= parts@.len(),
            all == text::texts(parts@),
            text::texts(out@) == resolved(all.take(i as int)),
        decreases parts@.len() - i,
    {
        let seg = vstd::slice::slice_to_vec(parts[i].as_slice());
        let ghost before = text::texts(out@);
        proof {
            assert(all.take(i + 1).drop_last() == all.take(i as int));
            assert(all.take(i + 1).last() == seg@);
        }
        if seg.len() == 0 || (seg.len() == 1 && seg[0] == '.') {
            assert(seg@.len() == 0 || seg@ =~= seq!['.']);
        } else if seg.len() == 2 && seg[0] == '.' && seg[1] == '.' {
            assert(seg@ =~= seq!['.', '.']);
            assert(!is_dot(seg@));
            let _ = out.pop();
            proof {
                if before.len() > 0 {
                    assert(text::texts(out@) =~= before.drop_last());
                }
            }
        } else {
            assert(!is_dot(seg@)) by {
                if is_dot(seg@) {
                    assert(seg@.len() == 1 && seg@[0] == '.');
                }
            }
            assert(!is_dot_dot(seg@)) by {
                if is_dot_dot(seg@) {
                    assert(seg@.len() == 2 && seg@[0] == '.' && seg@[1] == '.');
                }
            }
            out.push(seg);
            assert(text::texts(out@) =~= before.push(seg@));
        }
        i += 1;
    }
    assert(all.take(i as int) == all);
    out
}

/// The normalized form of a decoded path.
pub fn normalize_path(p: &str) -> (r: String)
    ensures
        r@ == normalized(p@),
{
    let c = text::chars_of(p);
    let trailing = c.len() > 1 && c[c.len() - 1] == '/';
    let segments = resolve_segments(text::split_chars(c.as_slice(), '/'));
    let mut out = String::new();
    out.push('/');
    let ghost sep = "/"@;
    proof {
        reveal_strlit("/");
        assert(sep =~= seq!['/']);
    }
    let joined = text::join_chars(&segments, "/");
    let empty = joined.as_str().is_empty();
    out.append(joined.as_str());
    assert(out@ =~= seq!['/'] + joined@);
    if trailing && !empty {
        out.push('/');
    }
    out
}

/// The canonical form of a raw request path; `None` where the path is malformed.
pub fn canonicalize_path(raw: &str) -> (r: Option<String>)
    ensures
        text::opt_text(r) == canonical(raw@),
{
    if raw.is_empty() || raw.get_char(0) != '/' {
        return None;
    }
    if raw.as_bytes().len() > MAX_PATH_LEN {
        return None;
    }
    let bytes = match percent_decode(raw) {
        Some(b) => b,
        None => {
            return None;
        },
    };
    if contains_control(bytes.as_slice()) {
        return None;
    }
    match utf8_text(bytes) {
        Some(decoded) => Some(normalize_path(strip_api_version_prefix(decoded.as_str()))),
        None => None,
    }
}

/// Whether a query string is short enough and free of control characters.
pub open spec fn query_accepted(q: Seq<char>) -> bool {
    encode_utf8(q).len() <= MAX_PATH_LEN && !has_control(encode_utf8(q))
}

/// Whether a query string is short enough and free of control characters.
pub fn accept_query(q: &str) -> (r: bool)
    ensures
        r == query_accepted(q@),
{
    q.as_bytes().len() <= MAX_PATH_LEN && !contains_control(q.as_bytes())
}

/// A segment that a canonical path can hold.
pub open spec fn is_plain(seg: Seq<char>) -> bool {
    seg.len() > 0 && !is_dot(seg) && !is_dot_dot(seg) && !seg.contains('/')
}

proof fn lemma_resolved_plain(segs: Seq<Seq<char>>)
    requires
        forall|k: int| 0 <= k < segs.len() ==> !(#[trigger] segs[k]).contains('/'),
    ensures
        forall|k: int| 0 <= k < resolved(segs).len() ==> is_plain(#[trigger] resolved(segs)[k]),
    decreases segs.len(),
{
    if segs.len() > 0 {
        let head = segs.drop_last();
        assert forall|k: int| 0 <= k < head.len() implies !(#[trigger] head[k]).contains('/') by {
            assert(head[k] == segs[k]);
        }
        lemma_resolved_plain(head);
        let last = segs[segs.len() - 1];
        let done = resolved(head);
        assert(!last.contains('/'));
        assert forall|k: int| 0 <= k < resolved(segs).len() implies is_plain(
            #[trigger] resolved(segs)[k],
        ) by {
            if k < done.len() {
                assert(is_plain(done[k]));
            }
        }
    }
}

/// Plain segments resolve to themselves.
proof fn lemma_plain_resolved(segs: Seq<Seq<char>>)
    requires
        forall|k: int| 0 <= k < segs.len() ==> is_plain(#[trigger] segs[k]),
    ensures
        resolved(seq![Seq::<char>::empty()] + segs) == segs,
    decreases segs.len(),
{
    let all = seq![Seq::<char>::empty()] + segs;
    if segs.len() == 0 {
        assert(all.drop_last() =~= seq![]);
        assert(resolved(all.drop_last()) =~= seq![]);
        assert(all.last() =~= seq![]);
        assert(resolved(all) =~= segs);
    } else {
        let head = segs.drop_last();
        assert forall|k: int| 0 <= k < head.len() implies is_plain(#[trigger] head[k]) by {
            assert(head[k] == segs[k]);
        }
        lemma_plain_resolved(head);
        assert(all.drop_last() =~= seq![Seq::<char>::empty()] + head);
        assert(is_plain(segs[segs.len() - 1]));
        assert(all.last() == segs.last());
        assert(resolved(all) =~= segs);
    }
}

proof fn lemma_join_nonempty(segs: Seq<Seq<char>>)
    requires
        segs.len() > 0,
        forall|k: int| 0 <= k < segs.len() ==> is_plain(#[trigger] segs[k]),
    ensures
        text::join(segs, seq!['/']).len() > 0,
        text::join(segs, seq!['/']).last() != '/',
{
    let last = segs[segs.len() - 1];
    assert(is_plain(last));
    let j = text::join(segs, seq!['/']);
    assert(last.contains(last.last()));
    assert(j.last() == last.last());
}

/// What the segments of a path made of plain segments are.
proof fn lemma_split_path(segs: Seq<Seq<char>>, trailing: bool)
    requires
        forall|k: int| 0 <= k < segs.len() ==> is_plain(#[trigger] segs[k]),
    ensures
        resolved(text::split(path_of(segs, trailing), '/')) == segs,
        path_of(segs, trailing).len() > 0,
        path_of(segs, trailing)[0] == '/',
        (path_of(segs, trailing).len() > 1 && path_of(segs, trailing).last() == '/') == (trailing
            && segs.len() > 0),
        forall|k: int|
            0 <= k < text::split(path_of(segs, trailing), '/').len() ==> !is_dot(
                #[trigger] text::split(path_of(segs, trailing), '/')[k],
            ) && !is_dot_dot(text::split(path_of(segs, trailing), '/')[k]),
{
    let empty = Seq::<char>::empty();
    let j = text::join(segs, seq!['/']);
    let p = seq!['/'] + j;
    text::lemma_find_char_unique(p, '/', 0);
    assert(p.take(0) =~= empty);
    assert(p.skip(1) =~= j);
    if segs.len() == 0 {
        assert(j =~= empty);
        text::lemma_find_char_unique(j, '/', 0);
        assert(text::split(j, '/') =~= seq![empty]);
        assert(text::split(p, '/') =~= seq![empty, empty]);
        let two = seq![empty, empty];
        assert(two.drop_last() =~= seq![empty] + segs);
        lemma_plain_resolved(segs);
        assert(resolved(two) =~= segs);
    } else {
        assert forall|k: int| 0 <= k < segs.len() implies !(#[trigger] segs[k]).contains('/') by {
            assert(is_plain(segs[k]));
        }
        text::lemma_split_join(segs, '/');
        lemma_join_nonempty(segs);
        assert(text::split(p, '/') =~= seq![empty] + segs);
        lemma_plain_resolved(segs);
        let all = seq![empty] + segs;
        assert forall|k: int| 0 <= k < all.len() implies !is_dot(#[trigger] all[k]) && !is_dot_dot(
            all[k],
        ) by {
            if k > 0 {
                assert(is_plain(segs[k - 1]));
            } else {
                assert(all[0].len() == 0);
            }
        }
        if trailing {
            assert(p.push('/') =~= p + seq!['/'] + empty);
            text::lemma_split_last(p, '/', empty);
            let more = all.push(empty);
            assert(more.drop_last() =~= all);
            assert(resolved(more) =~= segs);
            assert forall|k: int| 0 <= k < more.len() implies !is_dot(#[trigger] more[k])
                && !is_dot_dot(more[k]) by {
                if k < all.len() {
                    assert(more[k] == all[k]);
                } else {
                    assert(more[k].len() == 0);
                }
            }
        }
    }
}

/// A canonical path starts with a slash and has neither a `.` nor a `..` segment, so nothing in
/// it can climb out of the path that the rules saw.
pub proof fn law_canonical_has_no_dot_segments(raw: Seq<char>)
    ensures
        canonical(raw) matches Some(p) ==> {
            &&& p.len() > 0
            &&& p[0] == '/'
            &&& forall|k: int|
                0 <= k < text::split(p, '/').len() ==> !is_dot(#[trigger] text::split(p, '/')[k])
                    && !is_dot_dot(text::split(p, '/')[k])
        },
{
    if let Some(p) = canonical(raw) {
        let q = without_version(decode_utf8(decoded(encode_utf8(raw))->0));
        text::lemma_split_parts(q, '/');
        lemma_resolved_plain(text::split(q, '/'));
        lemma_split_path(resolved(text::split(q, '/')), q.len() > 1 && q.last() == '/');
    }
}

/// Normalizing a path a second time changes nothing.
pub proof fn law_normalized_is_stable(p: Seq<char>)
    ensures
        normalized(normalized(p)) == normalized(p),
{
    text::lemma_split_parts(p, '/');
    lemma_resolved_plain(text::split(p, '/'));
    let segs = resolved(text::split(p, '/'));
    let trailing = p.len() > 1 && p.last() == '/';
    lemma_split_path(segs, trailing);
    if segs.len() == 0 {
        assert(text::join(segs, seq!['/']) =~= seq![]);
    }
}

/// The characters that a canonical path never holds.
pub open spec fn is_control_char(c: char) -> bool {
    c < ' ' || c == '\x7f'
}

/// Whether none of the characters is a control character.
pub open spec fn is_clean(s: Seq<char>) -> bool {
    forall|i: int| 0 <= i < s.len() ==> !is_control_char(#[trigger] s[i])
}

/// A control character is encoded as a control byte.
proof fn lemma_control_encoded(s: Seq<char>, i: int)
    requires
        0 <= i < s.len(),
        is_control_char(s[i]),
    ensures
        has_control(encode_utf8(s)),
    decreases s.len(),
{
    let head = encode_scalar(s[0] as u32);
    let rest = encode_utf8(s.drop_first());
    let all = head + rest;
    if i == 0 {
        let c = s[0] as u32;
        char_is_scalar(s[0]);
        char_u32_cast(s[0], c);
        assert(s[0] as int == c as int);
        assert(c <= 0x7f ==> (c & 0x7f) as u8 == c) by (bit_vector);
        assert(all[0] == head[0]);
        assert(is_control(all[0]));
    } else {
        lemma_control_encoded(s.drop_first(), i - 1);
        let k = choose|k: int| 0 <= k < rest.len() && is_control(#[trigger] rest[k]);
        assert(all[head.len() + k] == rest[k]);
    }
}

proof fn lemma_decoded_clean(b: Seq<u8>)
    requires
        valid_utf8(b),
        !has_control(b),
    ensures
        is_clean(decode_utf8(b)),
{
    let s = decode_utf8(b);
    decode_utf8_encode_utf8(b);
    assert forall|i: int| 0 <= i < s.len() implies !is_control_char(#[trigger] s[i]) by {
        if is_control_char(s[i]) {
            lemma_control_encoded(s, i);
        }
    }
}

proof fn lemma_split_clean(s: Seq<char>, sep: char)
    requires
        is_clean(s),
    ensures
        forall|k: int|
            0 <= k < text::split(s, sep).len() ==> is_clean(#[trigger] text::split(s, sep)[k]),
    decreases s.len(),
{
    text::lemma_find_char(s, sep);
    let i = text::find_char(s, sep);
    if i < s.len() {
        let rest = s.skip(i + 1);
        assert forall|j: int| 0 <= j < rest.len() implies !is_control_char(#[trigger] rest[j]) by {
            assert(rest[j] == s[j + i + 1]);
        }
        lemma_split_clean(rest, sep);
        let head = s.take(i);
        assert forall|j: int| 0 <= j < head.len() implies !is_control_char(#[trigger] head[j]) by {
            assert(head[j] == s[j]);
        }
        let all = text::split(s, sep);
        assert forall|k: int| 0 <= k < all.len() implies is_clean(#[trigger] all[k]) by {
            if k > 0 {
                assert(all[k] == text::split(rest, sep)[k - 1]);
            }
        }
    }
}

proof fn lemma_resolved_clean(segs: Seq<Seq<char>>)
    requires
        forall|k: int| 0 <= k < segs.len() ==> is_clean(#[trigger] segs[k]),
    ensures
        forall|k: int| 0 <= k < resolved(segs).len() ==> is_clean(#[trigger] resolved(segs)[k]),
    decreases segs.len(),
{
    if segs.len() > 0 {
        let head = segs.drop_last();
        assert forall|k: int| 0 <= k < head.len() implies is_clean(#[trigger] head[k]) by {
            assert(head[k] == segs[k]);
        }
        lemma_resolved_clean(head);
        let done = resolved(head);
        assert(is_clean(segs[segs.len() - 1]));
        assert forall|k: int| 0 <= k < resolved(segs).len() implies is_clean(
            #[trigger] resolved(segs)[k],
        ) by {
            if k < done.len() {
                assert(is_clean(done[k]));
            }
        }
    }
}

proof fn lemma_join_clean(parts: Seq<Seq<char>>)
    requires
        forall|k: int| 0 <= k < parts.len() ==> is_clean(#[trigger] parts[k]),
    ensures
        is_clean(text::join(parts, seq!['/'])),
    decreases parts.len(),
{
    if parts.len() == 1 {
        assert(is_clean(parts[0]));
    } else if parts.len() > 1 {
        let head = parts.drop_last();
        assert forall|k: int| 0 <= k < head.len() implies is_clean(#[trigger] head[k]) by {
            assert(head[k] == parts[k]);
        }
        lemma_join_clean(head);
        let a = text::join(head, seq!['/']);
        let b = parts[parts.len() - 1];
        assert(is_clean(b));
        let all = a + seq!['/'] + b;
        assert forall|i: int| 0 <= i < all.len() implies !is_control_char(#[trigger] all[i]) by {
            if i < a.len() {
                assert(all[i] == a[i]);
            } else if i > a.len() {
                assert(all[i] == b[i - a.len() - 1]);
            }
        }
    }
}

/// A canonical path holds no control character, whether it was sent raw or percent-encoded.
pub proof fn law_canonical_has_no_control_characters(raw: Seq<char>)
    ensures
        canonical(raw) matches Some(p) ==> is_clean(p),
{
    if let Some(p) = canonical(raw) {
        let d = decode_utf8(decoded(encode_utf8(raw))->0);
        lemma_decoded_clean(decoded(encode_utf8(raw))->0);
        let q = without_version(d);
        assert(is_clean(q)) by {
            let rest = d.skip(2);
            let i = text::find_char(rest, '/');
            text::lemma_find_char(rest, '/');
            if q != d {
                assert forall|j: int| 0 <= j < q.len() implies !is_control_char(#[trigger] q[j]) by {
                    assert(q[j] == d[2 + i + j]);
                }
            }
        }
        lemma_split_clean(q, '/');
        lemma_resolved_clean(text::split(q, '/'));
        lemma_join_clean(resolved(text::split(q, '/')));
    }
}

/// A slash at the end of a path is kept, unless nothing else remains of the path, and none is
/// added.
pub proof fn law_trailing_slash_is_kept(p: Seq<char>)
    ensures
        (normalized(p).len() > 1 && normalized(p).last() == '/') == (p.len() > 1 && p.last() == '/'
            && resolved(text::split(p, '/')).len() > 0),
{
    text::lemma_split_parts(p, '/');
    let segs = resolved(text::split(p, '/'));
    lemma_resolved_plain(text::split(p, '/'));
    lemma_split_path(segs, p.len() > 1 && p.last() == '/');
}

proof fn lemma_decoded_parts(a: Seq<u8>, b: Seq<u8>)
    requires
        decoded(a) is Some,
    ensures
        decoded(a + b) == after_head(decoded(a)->0, decoded(b)),
    decreases a.len(),
{
    if a.len() == 0 {
        assert(a + b =~= b);
        if decoded(b) is Some {
            assert(decoded(a)->0 + decoded(b)->0 =~= decoded(b)->0);
        }
    } else if a[0] == 0x25 {
        let rest = a.skip(3);
        lemma_decoded_parts(rest, b);
        assert((a + b).skip(3) =~= rest + b);
        if decoded(b) is Some {
            let v = seq![(hex_value(a[1])->0 * 16 + hex_value(a[2])->0) as u8];
            assert(v + (decoded(rest)->0 + decoded(b)->0) =~= (v + decoded(rest)->0) + decoded(
                b,
            )->0);
        }
    } else {
        let rest = a.skip(1);
        lemma_decoded_parts(rest, b);
        assert((a + b).skip(1) =~= rest + b);
        if decoded(b) is Some {
            assert(seq![a[0]] + (decoded(rest)->0 + decoded(b)->0) =~= (seq![a[0]] + decoded(
                rest,
            )->0) + decoded(b)->0);
        }
    }
}

/// A byte that is percent-encoded is no different from the byte itself, wherever it stands.
pub proof fn law_encoded_bytes_stand_for_themselves(
    a: Seq<u8>,
    high: u8,
    low: u8,
    byte: u8,
    b: Seq<u8>,
)
    requires
        decoded(a) is Some,
        hex_value(high) is Some,
        hex_value(low) is Some,
        byte == hex_value(high)->0 * 16 + hex_value(low)->0,
        byte != 0x25,
    ensures
        decoded(a + seq![0x25u8, high, low] + b) == decoded(a + seq![byte] + b),
{
    let sent = seq![0x25u8, high, low] + b;
    let plain = seq![byte] + b;
    assert(a + seq![0x25u8, high, low] + b =~= a + sent);
    assert(a + seq![byte] + b =~= a + plain);
    lemma_decoded_parts(a, sent);
    lemma_decoded_parts(a, plain);
    assert(sent.skip(3) =~= b);
    assert(plain.skip(1) =~= b);
}

/// Paths of the same bytes, however they are encoded, have the same canonical form.
pub proof fn law_encoding_does_not_matter(raw: Seq<char>, other: Seq<char>)
    requires
        raw.len() > 0,
        raw[0] == '/',
        encode_utf8(raw).len() <= MAX_PATH_LEN,
        other.len() > 0,
        other[0] == '/',
        encode_utf8(other).len() <= MAX_PATH_LEN,
        decoded(encode_utf8(raw)) == decoded(encode_utf8(other)),
    ensures
        canonical(raw) == canonical(other),
{
}

/// The number of bytes that a text takes.
spec fn size(s: Seq<char>) -> int {
    encode_utf8(s).len() as int
}

proof fn lemma_size_parts(a: Seq<char>, b: Seq<char>)
    ensures
        size(a + b) == size(a) + size(b),
    decreases a.len(),
{
    if a.len() == 0 {
        assert(a + b =~= b);
    } else {
        lemma_size_parts(a.drop_first(), b);
        assert((a + b).drop_first() =~= a.drop_first() + b);
    }
}

proof fn lemma_size_of_slash()
    ensures
        size(seq!['/']) == 1,
{
    let s = seq!['/'];
    assert(s.drop_first() =~= seq![]);
    reveal_with_fuel(encode_utf8, 2);
}

/// The bytes that segments take, with a slash for each that is not empty.
spec fn weight(segs: Seq<Seq<char>>) -> int
    decreases segs.len(),
{
    if segs.len() == 0 {
        0
    } else if segs.last().len() == 0 {
        weight(segs.drop_last())
    } else {
        weight(segs.drop_last()) + size(segs.last()) + 1
    }
}

proof fn lemma_weight_first(first: Seq<char>, rest: Seq<Seq<char>>)
    ensures
        weight(seq![first] + rest) == weight(seq![first]) + weight(rest),
    decreases rest.len(),
{
    let all = seq![first] + rest;
    if rest.len() == 0 {
        assert(all =~= seq![first]);
    } else {
        assert(all.drop_last() =~= seq![first] + rest.drop_last());
        assert(all.last() == rest.last());
        lemma_weight_first(first, rest.drop_last());
    }
}

proof fn lemma_weight_one(seg: Seq<char>)
    ensures
        weight(seq![seg]) == if seg.len() == 0 {
            0
        } else {
            size(seg) + 1
        },
{
    assert(seq![seg].drop_last() =~= seq![]);
    assert(weight(seq![seg].drop_last()) == 0);
}

/// The segments of a text and the slashes between them take no more than the text.
proof fn lemma_weight_split(s: Seq<char>)
    ensures
        weight(text::split(s, '/')) <= size(s) + 1,
    decreases s.len(),
{
    text::lemma_find_char(s, '/');
    let i = text::find_char(s, '/');
    if i < s.len() {
        let rest = s.skip(i + 1);
        lemma_weight_split(rest);
        lemma_weight_first(s.take(i), text::split(rest, '/'));
        lemma_weight_one(s.take(i));
        assert(s =~= s.take(i) + (seq!['/'] + rest));
        lemma_size_parts(s.take(i), seq!['/'] + rest);
        lemma_size_parts(seq!['/'], rest);
        lemma_size_of_slash();
    } else {
        assert(text::split(s, '/') =~= seq![s]);
        lemma_weight_one(s);
    }
}

proof fn lemma_weight_resolved(segs: Seq<Seq<char>>)
    ensures
        0 <= weight(resolved(segs)) <= weight(segs),
    decreases segs.len(),
{
    if segs.len() > 0 {
        lemma_weight_resolved(segs.drop_last());
        let done = resolved(segs.drop_last());
        let s = segs.last();
        if s.len() == 0 || is_dot(s) {
        } else if is_dot_dot(s) {
            if done.len() > 0 {
                lemma_weight_positive(done.drop_last());
            }
        } else {
            assert(done.push(s).drop_last() =~= done);
        }
    }
}

proof fn lemma_weight_positive(segs: Seq<Seq<char>>)
    ensures
        0 <= weight(segs),
    decreases segs.len(),
{
    if segs.len() > 0 {
        lemma_weight_positive(segs.drop_last());
    }
}

proof fn lemma_size_join(segs: Seq<Seq<char>>)
    requires
        segs.len() > 0,
        forall|k: int| 0 <= k < segs.len() ==> is_plain(#[trigger] segs[k]),
    ensures
        size(text::join(segs, seq!['/'])) + 1 == weight(segs),
    decreases segs.len(),
{
    let last = segs[segs.len() - 1];
    assert(is_plain(last));
    if segs.len() == 1 {
        assert(segs =~= seq![last]);
        lemma_weight_one(last);
    } else {
        let head = segs.drop_last();
        assert forall|k: int| 0 <= k < head.len() implies is_plain(#[trigger] head[k]) by {
            assert(head[k] == segs[k]);
        }
        lemma_size_join(head);
        lemma_size_parts(text::join(head, seq!['/']) + seq!['/'], last);
        lemma_size_parts(text::join(head, seq!['/']), seq!['/']);
        lemma_size_of_slash();
    }
}

/// Normalizing a path does not make it longer.
proof fn lemma_normalized_size(q: Seq<char>)
    requires
        q.len() > 0,
        q[0] == '/',
    ensures
        size(normalized(q)) <= size(q),
{
    let parts = text::split(q, '/');
    let segs = resolved(parts);
    let trailing = q.len() > 1 && q.last() == '/';
    text::lemma_split_parts(q, '/');
    lemma_resolved_plain(parts);
    lemma_weight_resolved(parts);
    lemma_size_of_slash();
    let p = seq!['/'] + text::join(segs, seq!['/']);
    lemma_size_parts(seq!['/'], text::join(segs, seq!['/']));
    lemma_size_parts(p, seq!['/']);
    assert(p.push('/') =~= p + seq!['/']);
    let rest = q.skip(1);
    assert(q =~= seq!['/'] + rest);
    lemma_size_parts(seq!['/'], rest);
    text::lemma_find_char_unique(q, '/', 0);
    let empty = Seq::<char>::empty();
    assert(q.take(0) =~= empty);
    assert(parts =~= seq![empty] + text::split(rest, '/'));
    lemma_weight_first(empty, text::split(rest, '/'));
    lemma_weight_one(empty);
    if trailing {
        let inner = rest.drop_last();
        assert(rest =~= inner + seq!['/'] + empty);
        lemma_size_parts(inner, seq!['/']);
        assert(inner + seq!['/'] =~= rest);
        text::lemma_split_last(inner, '/', empty);
        assert(text::split(rest, '/').drop_last() =~= text::split(inner, '/'));
        lemma_weight_split(inner);
    } else {
        lemma_weight_split(rest);
    }
    if segs.len() > 0 {
        lemma_size_join(segs);
    } else {
        assert(text::join(segs, seq!['/']) =~= empty);
    }
}

/// A byte of one character's encoding that is ASCII is that character.
proof fn lemma_ascii_byte_of_scalar(c: char, k: int)
    requires
        0 <= k < encode_scalar(c as u32).len(),
        encode_scalar(c as u32)[k] < 0x80,
    ensures
        encode_scalar(c as u32)[k] as u32 == c as u32,
{
    let u = c as u32;
    char_is_scalar(c);
    assert(u <= 0x7f ==> (u & 0x7f) as u8 as u32 == u) by (bit_vector);
    assert(u <= 0x10ffff ==> (0xc0u8 | ((u >> 6) & 0x1f) as u8) >= 0x80) by (bit_vector);
    assert((0xe0u8 | ((u >> 12) & 0x0f) as u8) >= 0x80) by (bit_vector);
    assert((0xf0u8 | ((u >> 18) & 0x07) as u8) >= 0x80) by (bit_vector);
    assert((0x80u8 | (u & 0x3f) as u8) >= 0x80) by (bit_vector);
    assert((0x80u8 | ((u >> 6) & 0x3f) as u8) >= 0x80) by (bit_vector);
    assert((0x80u8 | ((u >> 12) & 0x3f) as u8) >= 0x80) by (bit_vector);
}

/// The number of a character tells which one it is.
proof fn lemma_char_number(c: char, n: u32)
    requires
        c as u32 == n,
    ensures
        c as int == n as int,
{
    char_is_scalar(c);
    char_u32_cast(c, n);
}

/// An ASCII byte of an encoding stands for a character of the text.
proof fn lemma_ascii_byte(s: Seq<char>, k: int) -> (i: int)
    requires
        0 <= k < encode_utf8(s).len(),
        encode_utf8(s)[k] < 0x80,
    ensures
        0 <= i < s.len(),
        s[i] as u32 == encode_utf8(s)[k] as u32,
    decreases s.len(),
{
    let head = encode_scalar(s[0] as u32);
    let rest = encode_utf8(s.drop_first());
    assert(encode_utf8(s) == head + rest);
    if k < head.len() {
        lemma_ascii_byte_of_scalar(s[0], k);
        0
    } else {
        assert(encode_utf8(s)[k] == rest[k - head.len()]);
        let i = lemma_ascii_byte(s.drop_first(), k - head.len());
        assert(s.drop_first()[i] == s[i + 1]);
        i + 1
    }
}

/// Bytes without a percent sign decode to themselves.
proof fn lemma_decoded_plain(b: Seq<u8>)
    requires
        forall|k: int| 0 <= k < b.len() ==> #[trigger] b[k] != 0x25,
    ensures
        decoded(b) == Some(b),
    decreases b.len(),
{
    if b.len() > 0 {
        let rest = b.skip(1);
        assert forall|k: int| 0 <= k < rest.len() implies #[trigger] rest[k] != 0x25 by {
            assert(rest[k] == b[k + 1]);
        }
        lemma_decoded_plain(rest);
        assert(seq![b[0]] + rest =~= b);
    } else {
        assert(b =~= seq![]);
    }
}

proof fn lemma_decoded_size(b: Seq<u8>)
    requires
        decoded(b) is Some,
    ensures
        decoded(b)->0.len() <= b.len(),
    decreases b.len(),
{
    if b.len() > 0 {
        if b[0] == 0x25 {
            lemma_decoded_size(b.skip(3));
        } else {
            lemma_decoded_size(b.skip(1));
        }
    }
}

/// A text whose encoding begins with a slash does, and the other way round.
proof fn lemma_leading_slash(s: Seq<char>)
    requires
        s.len() > 0,
    ensures
        encode_utf8(s).len() > 0,
        (s[0] == '/') == (encode_utf8(s)[0] == 0x2f),
{
    let head = encode_scalar(s[0] as u32);
    assert(encode_utf8(s) == head + encode_utf8(s.drop_first()));
    assert(encode_utf8(s)[0] == head[0]);
    lemma_char_number(s[0], s[0] as u32);
    if s[0] == '/' {
        assert((0x2fu32 & 0x7f) as u8 == 0x2f) by (bit_vector);
    } else if head[0] == 0x2f {
        lemma_ascii_byte_of_scalar(s[0], 0);
    }
}

/// What the version prefix is stripped from still begins with a slash.
proof fn lemma_without_version_size(d: Seq<char>)
    requires
        d.len() > 0,
        d[0] == '/',
    ensures
        without_version(d).len() > 0,
        without_version(d)[0] == '/',
        size(without_version(d)) <= size(d),
{
    let rest = d.skip(2);
    let i = text::find_char(rest, '/');
    text::lemma_find_char(rest, '/');
    if without_version(d) != d {
        assert(d =~= d.take(2 + i) + rest.skip(i));
        lemma_size_parts(d.take(2 + i), rest.skip(i));
    }
}

/// A canonical path without a percent sign and without a version is its own canonical form.
pub proof fn law_canonical_path_is_its_own_canonical_form(raw: Seq<char>, p: Seq<char>)
    requires
        canonical(raw) == Some(p),
        !p.contains('%'),
        without_version(p) == p,
    ensures
        canonical(p) == Some(p),
{
    let sent = encode_utf8(raw);
    let b = decoded(sent)->0;
    let d = decode_utf8(b);
    let q = without_version(d);
    lemma_leading_slash(raw);
    lemma_decoded_size(sent);
    assert(b.len() > 0 && b[0] == 0x2f);
    decode_utf8_encode_utf8(b);
    assert(encode_utf8(d) == b);
    assert(d.len() > 0) by {
        if d.len() == 0 {
            assert(encode_utf8(d).len() == 0);
        }
    }
    lemma_leading_slash(d);
    lemma_without_version_size(d);
    lemma_normalized_size(q);
    law_canonical_has_no_dot_segments(raw);
    law_canonical_has_no_control_characters(raw);
    law_normalized_is_stable(q);
    let own = encode_utf8(p);
    assert forall|k: int| 0 <= k < own.len() implies !is_control(#[trigger] own[k]) && own[k]
        != 0x25 by {
        if is_control(own[k]) || own[k] == 0x25 {
            let i = lemma_ascii_byte(p, k);
            lemma_char_number(p[i], own[k] as u32);
            assert(!is_control_char(p[i]));
            assert(p.contains(p[i]));
        }
    }
    lemma_decoded_plain(own);
    encode_utf8_valid_utf8(p);
    encode_utf8_decode_utf8(p);
}

/// A `..` takes the segment before it along, and no other.
pub proof fn law_dot_dot_undoes_a_segment(a: Seq<Seq<char>>, s: Seq<char>)
    requires
        s.len() > 0,
        s != seq!['.'],
        s != seq!['.', '.'],
    ensures
        resolved(a.push(s).push(seq!['.', '.'])) == resolved(a),
{
    let more = a.push(s);
    let all = more.push(seq!['.', '.']);
    assert(more.drop_last() =~= a);
    assert(all.drop_last() =~= more);
    lemma_dots();
    assert(resolved(more) == resolved(a).push(s));
    assert(resolved(a).push(s).drop_last() =~= resolved(a));
}

/// How segments resolve, one by one: an empty segment and a `.` are dropped, a `..` on nothing
/// leaves nothing, and any other is added at the end.
pub proof fn law_segments_resolve_one_by_one(a: Seq<Seq<char>>, s: Seq<char>)
    ensures
        resolved(Seq::empty()) == Seq::<Seq<char>>::empty(),
        resolved(a.push(Seq::empty())) == resolved(a),
        resolved(a.push(seq!['.'])) == resolved(a),
        resolved(a).len() == 0 ==> resolved(a.push(seq!['.', '.'])).len() == 0,
        s.len() > 0 && s != seq!['.'] && s != seq!['.', '.'] ==> resolved(a.push(s)) == resolved(
            a,
        ).push(s),
{
    lemma_dots();
    assert(a.push(s).drop_last() =~= a);
    assert(a.push(Seq::empty()).drop_last() =~= a);
    assert(a.push(seq!['.']).drop_last() =~= a);
    assert(a.push(seq!['.', '.']).drop_last() =~= a);
}

proof fn lemma_dots()
    ensures
        seq!['.'] != seq!['.', '.'],
        !is_dot(seq!['.', '.']),
        is_dot_dot(seq!['.', '.']),
        is_dot(seq!['.']),
{
    assert(seq!['.'].len() == 1);
    assert(seq!['.', '.'].len() == 2);
}

proof fn lemma_resolved_after(a: Seq<Seq<char>>, b: Seq<Seq<char>>, rest: Seq<Seq<char>>)
    requires
        resolved(a) == resolved(b),
    ensures
        resolved(a + rest) == resolved(b + rest),
    decreases rest.len(),
{
    if rest.len() == 0 {
        assert(a + rest =~= a);
        assert(b + rest =~= b);
    } else {
        lemma_resolved_after(a, b, rest.drop_last());
        assert((a + rest).drop_last() =~= a + rest.drop_last());
        assert((b + rest).drop_last() =~= b + rest.drop_last());
        assert((a + rest).last() == rest.last());
        assert((b + rest).last() == rest.last());
    }
}

/// Wherever they stand in a path, an empty segment, a `.` segment, and a segment that a `..`
/// follows make no difference, and neither does a `..` at the start.
pub proof fn law_dot_segments_make_no_difference(a: Seq<char>, s: Seq<char>, b: Seq<char>)
    requires
        s.len() > 0,
        s != seq!['.'],
        s != seq!['.', '.'],
        !s.contains('/'),
    ensures
        normalized(a + seq!['/', '/'] + b) == normalized(a + seq!['/'] + b),
        normalized(a + seq!['/', '.', '/'] + b) == normalized(a + seq!['/'] + b),
        normalized(a + seq!['/'] + s + seq!['/', '.', '.', '/'] + b) == normalized(
            a + seq!['/'] + b,
        ),
        normalized(seq!['/', '.', '.', '/'] + b) == normalized(seq!['/'] + b),
{
    let slash = seq!['/'];
    let plain = a + slash + b;
    let none = Seq::<char>::empty();
    let left = text::split(a, '/');
    let right = text::split(b, '/');
    text::law_splitting_at_a_separator(a, b, '/');
    lemma_dots();
    // an empty segment
    let double = a + seq!['/', '/'] + b;
    assert(double =~= a + slash + (none + slash + b));
    text::law_splitting_at_a_separator(a, none + slash + b, '/');
    text::law_splitting_at_a_separator(none, b, '/');
    assert(left + (seq![none] + right) =~= left.push(none) + right);
    law_segments_resolve_one_by_one(left, s);
    lemma_resolved_after(left.push(none), left, right);
    lemma_same_normalized(double, plain);
    // a `.` segment
    let dot = seq!['.'];
    let dotted = a + seq!['/', '.', '/'] + b;
    assert(dotted =~= a + slash + (dot + slash + b));
    text::law_splitting_at_a_separator(a, dot + slash + b, '/');
    assert(!dot.contains('/'));
    text::law_splitting_at_a_separator(dot, b, '/');
    assert(left + (seq![dot] + right) =~= left.push(dot) + right);
    lemma_resolved_after(left.push(dot), left, right);
    lemma_same_normalized(dotted, plain);
    // a segment and a `..` segment
    let up = seq!['.', '.'];
    let climbing = a + slash + s + seq!['/', '.', '.', '/'] + b;
    assert(climbing =~= a + slash + (s + slash + (up + slash + b)));
    text::law_splitting_at_a_separator(a, s + slash + (up + slash + b), '/');
    text::law_splitting_at_a_separator(s, up + slash + b, '/');
    assert(!up.contains('/'));
    text::law_splitting_at_a_separator(up, b, '/');
    assert(left + (seq![s] + (seq![up] + right)) =~= left.push(s).push(up) + right);
    law_dot_dot_undoes_a_segment(left, s);
    lemma_resolved_after(left.push(s).push(up), left, right);
    lemma_same_normalized(climbing, plain);
    // a `..` segment at the start
    let start = slash + b;
    let above = seq!['/', '.', '.', '/'] + b;
    assert(start =~= none + slash + b);
    assert(above =~= none + slash + (up + slash + b));
    text::law_splitting_at_a_separator(none, up + slash + b, '/');
    let nothing = Seq::<Seq<char>>::empty();
    assert(seq![none] =~= nothing.push(none));
    law_segments_resolve_one_by_one(nothing, s);
    law_segments_resolve_one_by_one(seq![none], s);
    assert(resolved(seq![none].push(up)) =~= resolved(seq![none]));
    assert(seq![none] + (seq![up] + right) =~= seq![none].push(up) + right);
    lemma_resolved_after(seq![none].push(up), seq![none], right);
    lemma_same_normalized(above, start);
}

proof fn lemma_same_normalized(p: Seq<char>, q: Seq<char>)
    requires
        p.len() > 0,
        q.len() > 0,
        p.last() == q.last(),
        resolved(text::split(p, '/')) == resolved(text::split(q, '/')),
    ensures
        normalized(p) == normalized(q),
{
    let segs = resolved(text::split(p, '/'));
    text::lemma_split_parts(p, '/');
    text::lemma_split_parts(q, '/');
    lemma_resolved_plain(text::split(p, '/'));
    lemma_one_slash(p);
    lemma_one_slash(q);
    if segs.len() == 0 {
        assert(text::join(segs, seq!['/']) =~= seq![]);
    }
}

/// A path of one slash has no segments.
proof fn lemma_one_slash(p: Seq<char>)
    requires
        p.len() > 0,
    ensures
        p.len() == 1 && p.last() == '/' ==> resolved(text::split(p, '/')).len() == 0,
{
    if p.len() == 1 && p.last() == '/' {
        let none = Seq::<char>::empty();
        let nothing = Seq::<Seq<char>>::empty();
        assert(p =~= none + seq!['/'] + none);
        text::law_splitting_at_a_separator(none, none, '/');
        assert(seq![none] + seq![none] =~= nothing.push(none).push(none));
        law_segments_resolve_one_by_one(nothing, none);
        law_segments_resolve_one_by_one(nothing.push(none), none);
    }
}

/// A path of plain segments, with or without a slash at its end, is its own normal form. A path
/// of none is a single slash.
pub proof fn law_plain_paths_are_kept(segs: Seq<Seq<char>>)
    requires
        forall|k: int| 0 <= k < segs.len() ==> is_plain(#[trigger] segs[k]),
    ensures
        normalized(Seq::empty()) == seq!['/'],
        normalized(seq!['/'] + text::join(segs, seq!['/'])) == seq!['/'] + text::join(
            segs,
            seq!['/'],
        ),
        segs.len() > 0 ==> normalized((seq!['/'] + text::join(segs, seq!['/'])).push('/')) == (
        seq!['/'] + text::join(segs, seq!['/'])).push('/'),
{
    let none = Seq::<char>::empty();
    let nothing = Seq::<Seq<char>>::empty();
    assert(text::split(none, '/') == seq![none]) by {
        text::law_splitting_at_a_separator(none, none, '/');
    }
    assert(seq![none] =~= nothing.push(none));
    law_segments_resolve_one_by_one(nothing, none);
    assert(text::join(nothing, seq!['/']) =~= none);
    assert(normalized(none) =~= seq!['/']);
    lemma_split_path(segs, false);
    lemma_split_path(segs, true);
    lemma_plain_resolved(segs);
    let p = path_of(segs, false);
    if segs.len() > 0 {
        lemma_join_nonempty(segs);
    }
}

/// A plain segment holds no slash and is neither empty nor one of the dot segments.
pub proof fn law_plain_segments(s: Seq<char>)
    ensures
        is_plain(s) <==> s.len() > 0 && s != seq!['.'] && s != seq!['.', '.'] && !s.contains('/'),
{
}

/// The hexadecimal digits are those from `0` to `9`, from `a` to `f` and from `A` to `F`, in the
/// order of their values.
pub proof fn law_hexadecimal_digits(b: u8, v: u8)
    ensures
        hex_value(b) == Some(v) <==> (v < 10 && b == 0x30 + v) || (10 <= v < 16 && (b == 0x41 + (v
            - 10) || b == 0x61 + (v - 10))),
{
}

/// Bytes are decoded part by part: a byte that is no percent sign stands for itself, a percent
/// sign and two hexadecimal digits for the byte with their value. A percent sign that fewer than
/// two hexadecimal digits follow makes the whole undecodable.
pub proof fn law_decoding_goes_by_parts(a: Seq<u8>, b: Seq<u8>, byte: u8, high: u8, low: u8)
    ensures
        decoded(Seq::empty()) == Some(Seq::<u8>::empty()),
        byte != 0x25 ==> decoded(seq![byte]) == Some(seq![byte]),
        decoded(a) is Some && decoded(b) is Some ==> decoded(a + b) == Some(
            decoded(a)->0 + decoded(b)->0,
        ),
        decoded(a) is Some && decoded(b) is None ==> decoded(a + b) is None,
        hex_value(high) is Some && hex_value(low) is Some ==> decoded(seq![0x25u8, high, low])
            == Some(seq![(16 * hex_value(high)->0 + hex_value(low)->0) as u8]),
        hex_value(high) is None || hex_value(low) is None ==> decoded(
            seq![0x25u8, high, low] + b,
        ) is None,
        decoded(seq![0x25u8]) is None,
        decoded(seq![0x25u8, high]) is None,
{
    let none = Seq::<u8>::empty();
    assert(decoded(none) =~= Some(none));
    assert(seq![byte].skip(1) =~= none);
    assert(seq![byte] + none =~= seq![byte]);
    if decoded(a) is Some {
        lemma_decoded_parts(a, b);
    }
    let three = seq![0x25u8, high, low];
    assert(three.skip(3) =~= none);
    if hex_value(high) is Some && hex_value(low) is Some {
        let v = seq![(hex_value(high)->0 * 16 + hex_value(low)->0) as u8];
        assert(v + none =~= v);
    }
    assert((three + b)[0] == 0x25 && (three + b)[1] == high && (three + b)[2] == low);
}

/// A version in front of a path is taken off: `/v`, then digits and dots, not a single dot, then
/// the path, which starts with a slash.
pub proof fn law_version_is_taken_off(v: Seq<char>, p: Seq<char>)
    requires
        v.len() > 0,
        v != seq!['.'],
        forall|i: int| 0 <= i < v.len() ==> #[trigger] v[i] == '.' || '0' <= v[i] <= '9',
        p.len() > 0,
        p[0] == '/',
    ensures
        without_version(seq!['/', 'v'] + v + p) == p,
{
    let all = seq!['/', 'v'] + v + p;
    let rest = all.skip(2);
    assert(rest =~= v + p);
    assert(rest[v.len() as int] == '/');
    text::lemma_find_char_unique(rest, '/', v.len() as int);
    assert(rest.take(v.len() as int) =~= v);
    assert(rest.skip(v.len() as int) =~= p);
}

/// Nothing but a version is taken off the front of a path.
pub proof fn law_other_paths_keep_their_front(p: Seq<char>) -> (v: Seq<char>)
    ensures
        without_version(p) != p ==> {
            &&& p == seq!['/', 'v'] + v + without_version(p)
            &&& v.len() > 0 && v != seq!['.']
            &&& forall|i: int| 0 <= i < v.len() ==> #[trigger] v[i] == '.' || '0' <= v[i] <= '9'
            &&& without_version(p).len() > 0 && without_version(p)[0] == '/'
        },
{
    let rest = p.skip(2);
    let i = text::find_char(rest, '/');
    text::lemma_find_char(rest, '/');
    if without_version(p) != p {
        let v = rest.take(i);
        assert(p =~= seq!['/', 'v'] + v + rest.skip(i));
        assert forall|k: int| 0 <= k < v.len() implies #[trigger] v[k] == '.' || '0' <= v[k]
            <= '9' by {
            assert(is_version_char(v[k]));
        }
        v
    } else {
        p
    }
}

/// Which request paths have a canonical form: those that start with a slash, take no more than
/// 8192 bytes, decode, and decode to text without control characters. It is what is decoded,
/// without a version in front and in its normal form.
pub proof fn law_canonical_form_of_a_path(raw: Seq<char>, b: Seq<u8>)
    ensures
        raw.len() == 0 || raw[0] != '/' ==> canonical(raw) is None,
        encode_utf8(raw).len() > 8192 ==> canonical(raw) is None,
        decoded(encode_utf8(raw)) is None ==> canonical(raw) is None,
        decoded(encode_utf8(raw)) == Some(b) && !valid_utf8(b) ==> canonical(raw) is None,
        decoded(encode_utf8(raw)) == Some(b) && (exists|i: int|
            0 <= i < b.len() && (#[trigger] b[i] < 0x20 || b[i] == 0x7f)) ==> canonical(raw) is None,
        raw.len() > 0 && raw[0] == '/' && encode_utf8(raw).len() <= 8192 && decoded(
            encode_utf8(raw),
        ) == Some(b) && valid_utf8(b) && (forall|i: int|
            0 <= i < b.len() ==> #[trigger] b[i] >= 0x20 && b[i] != 0x7f) ==> canonical(raw)
            == Some(normalized(without_version(decode_utf8(b)))),
{
    if exists|i: int| 0 <= i < b.len() && (#[trigger] b[i] < 0x20 || b[i] == 0x7f) {
        let i = choose|i: int| 0 <= i < b.len() && (#[trigger] b[i] < 0x20 || b[i] == 0x7f);
        assert(is_control(b[i]));
    }
}

/// A query is accepted exactly where it takes no more than 8192 bytes and none of them is a
/// control character.
pub proof fn law_accepted_queries(q: Seq<char>)
    ensures
        query_accepted(q) <==> encode_utf8(q).len() <= 8192 && forall|i: int|
            0 <= i < encode_utf8(q).len() ==> #[trigger] encode_utf8(q)[i] >= 0x20 && encode_utf8(
                q,
            )[i] != 0x7f,
{
    let b = encode_utf8(q);
    if query_accepted(q) {
        assert forall|i: int| 0 <= i < b.len() implies #[trigger] b[i] >= 0x20 && b[i] != 0x7f by {
            assert(!is_control(b[i]));
        }
    }
}

} // verus!
