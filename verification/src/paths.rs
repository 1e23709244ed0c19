//! Archive virtual-path rules: normalization, hex keys, display text, and the
//! extraction-safety predicate shared by every operation that writes files.

use vstd::prelude::*;
use vstd::utf8::*;

use crate::error::{ArchiveError, Result};

verus! {

broadcast use vstd::seq::group_seq_axioms;

// ---------------------------------------------------------------------------
// Normalization
// ---------------------------------------------------------------------------

/// `/` or `\`: the two bytes archive paths accept as separators.
pub open spec fn is_sep(b: u8) -> bool {
    b == 47u8 || b == 92u8
}

/// One byte's normalized spelling: `\` becomes `/`, ASCII uppercase becomes lowercase.
pub open spec fn fold_byte(b: u8) -> u8 {
    if b == 92u8 {
        47u8
    } else if 65u8 <= b <= 90u8 {
        (b + 32) as u8
    } else {
        b
    }
}

/// Normalized spelling of `s`, read left to right; `after_sep` says whether the byte
/// before `s` was a separator (or `s` starts the path), in which case a leading
/// separator of `s` is dropped.
pub open spec fn normalize_from(s: Seq<u8>, after_sep: bool) -> Seq<u8>
    decreases s.len(),
{
    if s.len() == 0 {
        seq![]
    } else {
        let b = fold_byte(s[0]);
        if b == 47u8 && after_sep {
            normalize_from(s.drop_first(), true)
        } else {
            seq![b] + normalize_from(s.drop_first(), b == 47u8)
        }
    }
}

/// Virtual-path normalization: `\` becomes `/`, ASCII letters are lowercased,
/// leading separators are dropped and repeated separators collapse; every other
/// byte is kept as it is.
pub open spec fn spec_normalize(s: Seq<u8>) -> Seq<u8> {
    normalize_from(s, true)
}

/// Bytes already in normalized spelling: no uppercase ASCII, no `\`, no leading
/// separator (when `after_sep`), no two separators in a row.
pub open spec fn is_normalized_from(s: Seq<u8>, after_sep: bool) -> bool {
    &&& forall|i: int| 0 <= i < s.len() ==> fold_byte(#[trigger] s[i]) == s[i]
    &&& (after_sep && s.len() > 0 ==> s[0] != 47u8)
    &&& forall|i: int| 0 <= i < s.len() - 1 ==> !(#[trigger] s[i] == 47u8 && s[i + 1] == 47u8)
}

pub proof fn lemma_fold_idempotent(b: u8)
    ensures
        fold_byte(fold_byte(b)) == fold_byte(b),
{
}

/// The output of `normalize_from` is in normalized spelling.
pub proof fn lemma_normalize_from_is_normalized(s: Seq<u8>, after_sep: bool)
    ensures
        is_normalized_from(normalize_from(s, after_sep), after_sep),
        normalize_from(s, after_sep).len() <= s.len(),
    decreases s.len(),
{
    if s.len() > 0 {
        let b = fold_byte(s[0]);
        lemma_fold_idempotent(s[0]);
        if b == 47u8 && after_sep {
            lemma_normalize_from_is_normalized(s.drop_first(), true);
        } else {
            let rest = normalize_from(s.drop_first(), b == 47u8);
            lemma_normalize_from_is_normalized(s.drop_first(), b == 47u8);
            let out = seq![b] + rest;
            assert(out[0] == b);
            assert forall|i: int| 0 <= i < out.len() implies fold_byte(#[trigger] out[i]) == out[i] by {
                if i > 0 {
                    assert(out[i] == rest[i - 1]);
                }
            }
            assert forall|i: int| 0 <= i < out.len() - 1 implies !(#[trigger] out[i] == 47u8 && out[i + 1] == 47u8) by {
                if i > 0 {
                    assert(out[i] == rest[i - 1]);
                    assert(out[i + 1] == rest[i]);
                } else {
                    assert(out[1] == rest[0]);
                }
            }
        }
    }
}

/// Normalizing bytes that already have normalized spelling changes nothing.
pub proof fn lemma_normalize_from_fixed(s: Seq<u8>, after_sep: bool)
    requires
        is_normalized_from(s, after_sep),
    ensures
        normalize_from(s, after_sep) == s,
    decreases s.len(),
{
    if s.len() > 0 {
        let b = fold_byte(s[0]);
        assert(b == s[0]);
        let t = s.drop_first();
        assert forall|i: int| 0 <= i < t.len() implies fold_byte(#[trigger] t[i]) == t[i] by {
            assert(t[i] == s[i + 1]);
        }
        assert forall|i: int| 0 <= i < t.len() - 1 implies !(#[trigger] t[i] == 47u8 && t[i + 1] == 47u8) by {
            assert(t[i] == s[i + 1]);
            assert(t[i + 1] == s[i + 2]);
        }
        if b == 47u8 && s.len() > 1 {
            assert(t[0] == s[1]);
        }
        lemma_normalize_from_fixed(t, b == 47u8);
        assert(seq![b] + t =~= s);
    }
}

/// Normalization is idempotent: a normalized lookup key normalizes to itself.
pub proof fn law_normalize_idempotent(s: Seq<u8>)
    ensures
        spec_normalize(spec_normalize(s)) == spec_normalize(s),
{
    lemma_normalize_from_is_normalized(s, true);
    lemma_normalize_from_fixed(spec_normalize(s), true);
}

/// Two spellings that differ only in ASCII letter case and in `\` versus `/`.
pub open spec fn same_spelling(a: Seq<u8>, b: Seq<u8>) -> bool {
    a.len() == b.len() && forall|i: int| 0 <= i < a.len() ==> fold_byte(#[trigger] a[i]) == fold_byte(b[i])
}

proof fn lemma_normalize_from_same_spelling(a: Seq<u8>, b: Seq<u8>, after_sep: bool)
    requires
        same_spelling(a, b),
    ensures
        normalize_from(a, after_sep) == normalize_from(b, after_sep),
    decreases a.len(),
{
    if a.len() > 0 {
        assert(fold_byte(a[0]) == fold_byte(b[0]));
        assert(same_spelling(a.drop_first(), b.drop_first())) by {
            assert forall|i: int| 0 <= i < a.drop_first().len() implies fold_byte(#[trigger] a.drop_first()[i]) == fold_byte(b.drop_first()[i]) by {
                assert(a.drop_first()[i] == a[i + 1]);
                assert(b.drop_first()[i] == b[i + 1]);
            }
        }
        lemma_normalize_from_same_spelling(a.drop_first(), b.drop_first(), true);
        lemma_normalize_from_same_spelling(a.drop_first(), b.drop_first(), false);
    }
}

/// Lookup paths ignore ASCII case and the direction of slashes: two spellings
/// that differ only there normalize to the same key.
pub proof fn law_normalize_ignores_case_and_slashes(a: Seq<u8>, b: Seq<u8>)
    requires
        same_spelling(a, b),
    ensures
        spec_normalize(a) == spec_normalize(b),
{
    lemma_normalize_from_same_spelling(a, b, true);
}

/// Calls `dream_path::normalize_path`, whose crate documentation states the rules
/// that `spec_normalize` writes down: `\` to `/`, ASCII lowercase, leading separators
/// dropped, repeated separators collapsed, all other bytes preserved.
#[verifier::external_body]
fn normalize_path_outside(path: &[u8]) -> (normalized: Vec<u8>)
    ensures
        normalized@ == spec_normalize(path@),
{
    dream_path::normalize_path(path)
}

/// Normalize archive virtual-path bytes. This is not a safety check.
pub fn normalize_archive_path_bytes(path: &[u8]) -> (normalized: Vec<u8>)
    ensures
        normalized@ == spec_normalize(path@),
{
    normalize_path_outside(path)
}

// ---------------------------------------------------------------------------
// Display text and hex keys
// ---------------------------------------------------------------------------

/// What the lossy UTF-8 conversion of `dream_path::bstr` returns for bytes that
/// are not valid UTF-8 (invalid sequences replaced by U+FFFD).
pub uninterp spec fn spec_lossy_invalid(bytes: Seq<u8>) -> Seq<char>;

/// The lossy UTF-8 reading of `bytes`: valid UTF-8 decoded unchanged, anything
/// else as the conversion gives it.
pub open spec fn spec_lossy_display(bytes: Seq<u8>) -> Seq<char> {
    if valid_utf8(bytes) {
        decode_utf8(bytes)
    } else {
        spec_lossy_invalid(bytes)
    }
}

/// `bytes` as characters, one per byte: the reading of ASCII text.
pub open spec fn ascii_chars(bytes: Seq<u8>) -> Seq<char> {
    bytes.map_values(|b: u8| b as char)
}

pub open spec fn is_ascii_bytes(bytes: Seq<u8>) -> bool {
    forall|i: int| 0 <= i < bytes.len() ==> #[trigger] bytes[i] < 128u8
}

/// Calls `ByteSlice::to_str_lossy` of `bstr` (re-exported by `dream_path`). Its
/// documentation says valid UTF-8 is decoded unchanged and invalid sequences are
/// replaced by U+FFFD; the first half is stated, the result for invalid input is named.
#[verifier::external_body]
fn lossy_display_outside(bytes: &[u8]) -> (text: String)
    ensures
        text@ == spec_lossy_display(bytes@),
        !valid_utf8(bytes@) ==> text@ == spec_lossy_invalid(bytes@),
{
    dream_path::bstr::ByteSlice::to_str_lossy(bytes).into_owned()
}

/// ASCII bytes are valid UTF-8 and decode to one character per byte.
pub proof fn lemma_ascii_decodes(bytes: Seq<u8>)
    requires
        is_ascii_bytes(bytes),
    ensures
        valid_utf8(bytes),
        decode_utf8(bytes) == ascii_chars(bytes),
{
    let chars = ascii_chars(bytes);
    assert(is_ascii_chars(chars)) by {
        assert forall|i| 0 <= i < chars.len() implies '\0' <= #[trigger] chars[i] <= '\u{7f}' by {
            assert(bytes[i] < 128u8);
        }
    }
    is_ascii_chars_encode_utf8(chars);
    assert(encode_utf8(chars) =~= bytes) by {
        assert forall|i| 0 <= i < bytes.len() implies encode_utf8(chars)[i] == bytes[i] by {
            assert(chars[i] as u8 == encode_utf8(chars)[i]);
        }
    }
    encode_utf8_valid_utf8(chars);
    encode_utf8_decode_utf8(chars);
}

/// Archive path bytes as text for people; invalid UTF-8 is replaced lossily.
pub fn archive_path_bytes_to_display(path: &[u8]) -> (text: String)
    ensures
        text@ == spec_lossy_display(path@),
        is_ascii_bytes(path@) ==> text@ == ascii_chars(path@),
{
    proof {
        if is_ascii_bytes(path@) {
            lemma_ascii_decodes(path@);
        }
    }
    lossy_display_outside(path)
}

/// Lowercase hexadecimal digit for a nibble.
pub open spec fn hex_digit(n: u8) -> u8 {
    if n < 10 {
        (48 + n) as u8
    } else {
        (87 + n) as u8
    }
}

/// Lowercase hex encoding of `bytes`, two digits per byte, high nibble first.
pub open spec fn spec_hex_bytes(bytes: Seq<u8>) -> Seq<u8> {
    Seq::new(
        2 * bytes.len(),
        |i: int|
            if i % 2 == 0 {
                hex_digit(bytes[i / 2] / 16)
            } else {
                hex_digit(bytes[i / 2] % 16)
            },
    )
}

pub open spec fn spec_hex_chars(bytes: Seq<u8>) -> Seq<char> {
    ascii_chars(spec_hex_bytes(bytes))
}

/// Encode archive path bytes as lowercase hexadecimal text.
pub fn archive_path_bytes_to_hex(path: &[u8]) -> (hex: String)
    ensures
        hex@ == spec_hex_chars(path@),
{
    let mut digits: Vec<u8> = Vec::new();
    let mut i: usize = 0;
    while i < path.len()
        invariant
            i <= path.len(),
            digits@.len() == 2 * i,
            forall|k: int| 0 <= k < 2 * i ==> #[trigger] digits@[k] == spec_hex_bytes(path@)[k],
        decreases path.len() - i,
    {
        let byte = path[i];
        let high = byte / 16;
        let low = byte % 16;
        let d1 = if high < 10 { 48 + high } else { 87 + high };
        let d2 = if low < 10 { 48 + low } else { 87 + low };
        digits.push(d1);
        digits.push(d2);
        assert((2 * i as int) / 2 == i as int);
        assert((2 * i as int + 1) / 2 == i as int);
        assert((2 * i as int) % 2 == 0);
        assert((2 * i as int + 1) % 2 == 1);
        i = i + 1;
    }
    assert(digits@ =~= spec_hex_bytes(path@));
    proof {
        assert forall|k: int| 0 <= k < digits@.len() implies #[trigger] digits@[k] < 128u8 by {
            let b = path@[k / 2];
            assert(b / 16 < 16);
            assert(b % 16 < 16);
        }
    }
    archive_path_bytes_to_display(digits.as_slice())
}


// ---------------------------------------------------------------------------
// Extraction safety
// ---------------------------------------------------------------------------

/// Byte `k` of `s` belongs to a path component other than `.`: a component is a
/// maximal run of non-separator bytes, and it is a file-name component when it is
/// longer than one byte or its one byte is not `.`.
pub open spec fn is_name_byte(s: Seq<u8>, k: int) -> bool {
    &&& 0 <= k < s.len()
    &&& !is_sep(s[k])
    &&& (s[k] != 46u8 || (k + 1 < s.len() && !is_sep(s[k + 1])) || (k > 0 && !is_sep(s[k - 1])))
}

/// A component of `s` starts at `k` and is exactly `..`.
pub open spec fn is_parent_part_at(s: Seq<u8>, k: int) -> bool {
    &&& 0 <= k
    &&& k + 1 < s.len()
    &&& s[k] == 46u8
    &&& s[k + 1] == 46u8
    &&& (k == 0 || is_sep(s[k - 1]))
    &&& (k + 2 == s.len() || is_sep(s[k + 2]))
}

/// Archive path bytes that extraction may turn into a host path: not empty, not
/// absolute, no NUL byte, some component other than `.`, no `..` component and no
/// `:` anywhere (so no drive prefix and no colon-containing component).
pub open spec fn is_safe_archive_path(s: Seq<u8>) -> bool {
    &&& s.len() > 0
    &&& !is_sep(s[0])
    &&& !s.contains(0u8)
    &&& !s.contains(58u8)
    &&& exists|k: int| is_name_byte(s, k)
    &&& !exists|k: int| is_parent_part_at(s, k)
}

/// The error every path-safety check reports: the offending bytes as display text.
pub open spec fn is_unsafe_path_error(e: ArchiveError, path: Seq<u8>) -> bool {
    e matches ArchiveError::UnsafePath(m) && m@ == spec_lossy_display(path)
}

fn unsafe_path_error(path: &[u8]) -> (e: ArchiveError)
    ensures
        is_unsafe_path_error(e, path@),
{
    ArchiveError::UnsafePath(archive_path_bytes_to_display(path))
}

/// Reject archive paths that are unsafe to turn into extraction targets.
pub fn validate_archive_path_bytes_for_extraction(path: &[u8]) -> (r: Result<()>)
    ensures
        r is Ok <==> is_safe_archive_path(path@),
        r matches Err(e) ==> is_unsafe_path_error(e, path@),
{
    let n = path.len();
    if n == 0 || path[0] == 47u8 || path[0] == 92u8 {
        return Err(unsafe_path_error(path));
    }
    let mut has_name = false;
    let mut has_parent = false;
    let mut has_bad_byte = false;
    let mut k: usize = 0;
    while k < n
        invariant
            n == path@.len(),
            k <= n,
            has_name <==> exists|j: int| 0 <= j < k && is_name_byte(path@, j),
            has_parent <==> exists|j: int| 0 <= j < k && is_parent_part_at(path@, j),
            has_bad_byte <==> exists|j: int| 0 <= j < k && (path@[j] == 0u8 || path@[j] == 58u8),
        decreases n - k,
    {
        let b = path[k];
        let sep = b == 47u8 || b == 92u8;
        if b == 0u8 || b == 58u8 {
            has_bad_byte = true;
        }
        let next_is_part = k + 1 < n && path[k + 1] != 47u8 && path[k + 1] != 92u8;
        let prev_is_part = k > 0 && path[k - 1] != 47u8 && path[k - 1] != 92u8;
        if !sep && (b != 46u8 || next_is_part || prev_is_part) {
            has_name = true;
        }
        if b == 46u8 && k + 1 < n && path[k + 1] == 46u8 && (k == 0 || path[k - 1] == 47u8
            || path[k - 1] == 92u8) && (k + 2 == n || path[k + 2] == 47u8 || path[k + 2] == 92u8) {
            has_parent = true;
        }
        proof {
            if has_name {
                if !(exists|j: int| 0 <= j < k && is_name_byte(path@, j)) {
                    assert(is_name_byte(path@, k as int));
                }
            }
            if has_parent {
                if !(exists|j: int| 0 <= j < k && is_parent_part_at(path@, j)) {
                    assert(is_parent_part_at(path@, k as int));
                }
            }
        }
        k = k + 1;
    }
    proof {
        assert(path@.contains(0u8) ==> has_bad_byte);
        assert(path@.contains(58u8) ==> has_bad_byte);
        if has_bad_byte {
            let j = choose|j: int| 0 <= j < n && (path@[j] == 0u8 || path@[j] == 58u8);
            assert(path@[j] == 0u8 ==> path@.contains(0u8));
            assert(path@[j] == 58u8 ==> path@.contains(58u8));
        }
    }
    if !has_name || has_parent || has_bad_byte {
        return Err(unsafe_path_error(path));
    }
    Ok(())
}

/// Normalize a lookup path and reject empty results and embedded NUL bytes.
pub fn normalize_lookup_archive_path_bytes(path: &[u8]) -> (r: Result<Vec<u8>>)
    ensures
        r is Ok <==> spec_normalize(path@).len() > 0 && !spec_normalize(path@).contains(0u8),
        r matches Ok(v) ==> v@ == spec_normalize(path@),
        r matches Err(e) ==> is_unsafe_path_error(e, spec_normalize(path@)),
{
    let normalized = normalize_archive_path_bytes(path);
    let mut i: usize = 0;
    while i < normalized.len()
        invariant
            i <= normalized@.len(),
            normalized@ == spec_normalize(path@),
            forall|j: int| 0 <= j < i ==> normalized@[j] != 0u8,
        decreases normalized@.len() - i,
    {
        if normalized[i] == 0u8 {
            assert(normalized@.contains(0u8)) by {
                assert(normalized@[i as int] == 0u8);
            }
            return Err(unsafe_path_error(normalized.as_slice()));
        }
        i = i + 1;
    }
    if normalized.len() == 0 {
        return Err(unsafe_path_error(normalized.as_slice()));
    }
    Ok(normalized)
}

/// Normalize a requested entry path and require both spellings to be safe to extract.
pub fn normalize_safe_archive_path_bytes(path: &[u8]) -> (r: Result<Vec<u8>>)
    ensures
        r is Ok <==> is_safe_archive_path(path@) && is_safe_archive_path(spec_normalize(path@)),
        r matches Ok(v) ==> v@ == spec_normalize(path@),
        r matches Err(e) ==> (!is_safe_archive_path(path@) && is_unsafe_path_error(e, path@)) || (
        is_safe_archive_path(path@) && is_unsafe_path_error(e, spec_normalize(path@))),
{
    validate_archive_path_bytes_for_extraction(path)?;
    let normalized = normalize_lookup_archive_path_bytes(path)?;
    validate_archive_path_bytes_for_extraction(normalized.as_slice())?;
    Ok(normalized)
}

// ---------------------------------------------------------------------------
// Host targets
// ---------------------------------------------------------------------------

/// `s` split at every `/`, left to right; always at least one (possibly empty) part.
pub open spec fn split_on_slash(s: Seq<u8>) -> Seq<Seq<u8>>
    decreases s.len(),
{
    if s.len() == 0 {
        seq![seq![]]
    } else {
        let init = split_on_slash(s.drop_last());
        if s.last() == 47u8 {
            init.push(seq![])
        } else {
            init.update(init.len() - 1, init.last().push(s.last()))
        }
    }
}

pub proof fn lemma_split_nonempty(s: Seq<u8>)
    ensures
        split_on_slash(s).len() >= 1,
    decreases s.len(),
{
    if s.len() > 0 {
        lemma_split_nonempty(s.drop_last());
    }
}

/// Appending one component to a Unix host path, as `PathBuf::push` does for a
/// relative component: a `/` is inserted unless the path is empty or already ends
/// with one.
pub open spec fn host_push(p: Seq<u8>, c: Seq<u8>) -> Seq<u8> {
    if p.len() == 0 || p.last() == 47u8 {
        p + c
    } else {
        p.push(47u8) + c
    }
}

/// `root` with every component of `comps` pushed in order, skipping `.` components.
pub open spec fn push_components(root: Seq<u8>, comps: Seq<Seq<u8>>) -> Seq<u8>
    decreases comps.len(),
{
    if comps.len() == 0 {
        root
    } else {
        let p = push_components(root, comps.drop_last());
        if comps.last() == seq![46u8] {
            p
        } else {
            host_push(p, comps.last())
        }
    }
}

/// The host target that keeps the archive directories of `normalized` under `root`.
pub open spec fn spec_nested_target(root: Seq<u8>, normalized: Seq<u8>) -> Seq<u8> {
    push_components(root, split_on_slash(normalized))
}

proof fn lemma_push_components_prefix(root: Seq<u8>, comps: Seq<Seq<u8>>)
    ensures
        push_components(root, comps).len() >= root.len(),
        push_components(root, comps).subrange(0, root.len() as int) == root,
    decreases comps.len(),
{
    if comps.len() > 0 {
        let p = push_components(root, comps.drop_last());
        lemma_push_components_prefix(root, comps.drop_last());
        if comps.last() != seq![46u8] {
            let q = host_push(p, comps.last());
            assert(q.subrange(0, root.len() as int) =~= p.subrange(0, root.len() as int));
        }
    }
}

/// An extraction target that keeps directories lies under the output root: the
/// root is a prefix of it.
pub proof fn law_nested_target_under_root(root: Seq<u8>, normalized: Seq<u8>)
    ensures
        spec_nested_target(root, normalized).len() >= root.len(),
        spec_nested_target(root, normalized).subrange(0, root.len() as int) == root,
{
    lemma_push_components_prefix(root, split_on_slash(normalized));
}

fn push_component(target: &mut Vec<u8>, component: &Vec<u8>)
    ensures
        final(target)@ == host_push(old(target)@, component@),
{
    let n = target.len();
    if n != 0 && target[n - 1] != 47u8 {
        target.push(47u8);
    }
    let ghost base = target@;
    let mut i: usize = 0;
    while i < component.len()
        invariant
            i <= component@.len(),
            target@ == base + component@.take(i as int),
        decreases component@.len() - i,
    {
        target.push(component[i]);
        assert(component@.take(i as int + 1) =~= component@.take(i as int).push(component@[i as int]));
        i = i + 1;
    }
    assert(component@.take(component@.len() as int) =~= component@);
}

fn is_current_dir(component: &Vec<u8>) -> (b: bool)
    ensures
        b <==> component@ == seq![46u8],
{
    let b = component.len() == 1 && component[0] == 46u8;
    proof {
        if component@.len() == 1 && component@[0] == 46u8 {
            assert(component@ =~= seq![46u8]);
        }
    }
    b
}

/// Host target for a normalized archive path, keeping its directories under `root`.
pub fn safe_target_path_normalized(root: &[u8], normalized: &[u8]) -> (r: Result<Vec<u8>>)
    ensures
        r is Ok <==> is_safe_archive_path(normalized@),
        r matches Ok(t) ==> t@ == spec_nested_target(root@, normalized@),
        r matches Err(e) ==> is_unsafe_path_error(e, normalized@),
{
    validate_archive_path_bytes_for_extraction(normalized)?;
    let mut target: Vec<u8> = Vec::new();
    let mut i: usize = 0;
    while i < root.len()
        invariant
            i <= root@.len(),
            target@ == root@.take(i as int),
        decreases root@.len() - i,
    {
        target.push(root[i]);
        assert(root@.take(i as int + 1) =~= root@.take(i as int).push(root@[i as int]));
        i = i + 1;
    }
    assert(root@.take(root@.len() as int) =~= root@);
    assert(normalized@.take(0) =~= Seq::<u8>::empty());
    let mut component: Vec<u8> = Vec::new();
    let mut k: usize = 0;
    while k < normalized.len()
        invariant
            k <= normalized@.len(),
            split_on_slash(normalized@.take(k as int)).len() >= 1,
            component@ == split_on_slash(normalized@.take(k as int)).last(),
            target@ == push_components(root@, split_on_slash(normalized@.take(k as int)).drop_last()),
        decreases normalized@.len() - k,
    {
        let ghost before = split_on_slash(normalized@.take(k as int));
        let b = normalized[k];
        assert(normalized@.take(k as int + 1).drop_last() =~= normalized@.take(k as int));
        if b == 47u8 {
            if !is_current_dir(&component) {
                push_component(&mut target, &component);
            }
            component = Vec::new();
            assert(before.push(seq![]).drop_last() =~= before);
            assert(before =~= before.drop_last().push(before.last()));
        } else {
            component.push(b);
            assert(before.update(before.len() - 1, before.last().push(b)).drop_last() =~= before.drop_last());
        }
        k = k + 1;
    }
    let ghost all = split_on_slash(normalized@.take(k as int));
    assert(normalized@.take(k as int) =~= normalized@);
    assert(all =~= all.drop_last().push(all.last()));
    if !is_current_dir(&component) {
        push_component(&mut target, &component);
    }
    Ok(target)
}

// ---------------------------------------------------------------------------
// Hosts whose file names are Unicode
// ---------------------------------------------------------------------------

/// A component a Unix-family host that stores Unicode file names (macOS) turns
/// into exactly one ordinary path component: UTF-8 text, not empty, `.` or `..`.
pub open spec fn platform_component_ok(c: Seq<u8>) -> bool {
    &&& valid_utf8(c)
    &&& c.len() > 0
    &&& c != seq![46u8]
    &&& c != seq![46u8, 46u8]
}

/// Whether every `/`-separated component of `path` is such a component.
pub open spec fn platform_path_ok(path: Seq<u8>) -> bool {
    forall|i: int| 0 <= i < split_on_slash(path).len() ==> platform_component_ok(#[trigger] split_on_slash(path)[i])
}

/// Calls `std::str::from_utf8`, which its documentation says fails exactly when
/// the bytes are not valid UTF-8.
#[verifier::external_body]
fn is_utf8(bytes: &[u8]) -> (b: bool)
    ensures
        b == valid_utf8(bytes@),
{
    std::str::from_utf8(bytes).is_ok()
}

fn platform_component_check(c: &Vec<u8>) -> (b: bool)
    ensures
        b == platform_component_ok(c@),
{
    if c.len() == 0 {
        return false;
    }
    if c.len() == 1 && c[0] == 46u8 {
        assert(c@ =~= seq![46u8]);
        return false;
    }
    if c.len() == 2 && c[0] == 46u8 && c[1] == 46u8 {
        assert(c@ =~= seq![46u8, 46u8]);
        return false;
    }
    assert(c@ != seq![46u8]) by {
        if c@.len() == 1 {
            assert(c@[0] == c[0]);
        }
    }
    assert(c@ != seq![46u8, 46u8]) by {
        if c@.len() == 2 {
            assert(c@[0] == c[0] && c@[1] == c[1]);
        }
    }
    is_utf8(c.as_slice())
}

/// Refuse a normalized path whose components a host that requires Unicode file
/// names would not store one for one; `utf8_components` says whether the host
/// requires that. Hosts that store file names as bytes accept every path.
pub fn ensure_platform_target_path_bytes(path: &[u8], utf8_components: bool) -> (r: Result<()>)
    ensures
        r is Ok <==> !utf8_components || platform_path_ok(path@),
        r matches Err(e) ==> is_unsafe_path_error(e, path@),
{
    if !utf8_components {
        return Ok(());
    }
    let mut component: Vec<u8> = Vec::new();
    let mut k: usize = 0;
    assert(path@.take(0) =~= Seq::<u8>::empty());
    while k < path.len()
        invariant
            utf8_components,
            k <= path@.len(),
            split_on_slash(path@.take(k as int)).len() >= 1,
            component@ == split_on_slash(path@.take(k as int)).last(),
            forall|i: int| 0 <= i < split_on_slash(path@.take(k as int)).len() - 1
                ==> platform_component_ok(#[trigger] split_on_slash(path@.take(k as int))[i]),
        decreases path@.len() - k,
    {
        let ghost before = split_on_slash(path@.take(k as int));
        let b = path[k];
        assert(path@.take(k as int + 1).drop_last() =~= path@.take(k as int));
        if b == 47u8 {
            let ghost after = split_on_slash(path@.take(k as int + 1));
            assert(after == before.push(seq![]));
            if !platform_component_check(&component) {
                proof {
                    assert(after[before.len() - 1] == component@);
                    lemma_split_prefix_component(path@, k as int + 1, before.len() - 1);
                    assert(!platform_component_ok(split_on_slash(path@)[before.len() - 1]));
                }
                return Err(unsafe_path_error(path));
            }
            component = Vec::new();
            assert forall|i: int| 0 <= i < after.len() - 1 implies platform_component_ok(#[trigger] after[i]) by {
                assert(after[i] == before[i]);
            }
        } else {
            component.push(b);
            let ghost after = split_on_slash(path@.take(k as int + 1));
            assert(after == before.update(before.len() - 1, before.last().push(b)));
            assert forall|i: int| 0 <= i < after.len() - 1 implies platform_component_ok(#[trigger] after[i]) by {
                assert(after[i] == before[i]);
            }
        }
        k = k + 1;
    }
    assert(path@.take(k as int) =~= path@);
    let ghost all = split_on_slash(path@);
    if !platform_component_check(&component) {
        assert(!platform_component_ok(all[all.len() - 1]));
        return Err(unsafe_path_error(path));
    }
    Ok(())
}

/// A component completed in a prefix of `s` stays a component of `s`.
proof fn lemma_split_prefix_component(s: Seq<u8>, n: int, i: int)
    requires
        0 <= n <= s.len(),
        0 <= i < split_on_slash(s.take(n)).len() - 1,
    ensures
        i < split_on_slash(s).len() - 1,
        split_on_slash(s)[i] == split_on_slash(s.take(n))[i],
    decreases s.len() - n,
{
    if n < s.len() {
        let p = s.take(n);
        let q = s.take(n + 1);
        assert(q.drop_last() =~= p);
        lemma_split_nonempty(p);
        let sp = split_on_slash(p);
        let sq = split_on_slash(q);
        if q.last() == 47u8 {
            assert(sq == sp.push(seq![]));
        } else {
            assert(sq == sp.update(sp.len() - 1, sp.last().push(q.last())));
        }
        assert(sq[i] == sp[i]);
        lemma_split_prefix_component(s, n + 1, i);
    } else {
        assert(s.take(n) =~= s);
    }
}

/// The final non-empty component of an already-normalized path, ignoring one
/// trailing separator, as `dream_path::file_name_normalized` defines it.
pub open spec fn after_last_slash(t: Seq<u8>) -> Seq<u8>
    decreases t.len(),
{
    if t.len() == 0 {
        t
    } else if t.last() == 47u8 {
        seq![]
    } else {
        after_last_slash(t.drop_last()).push(t.last())
    }
}

pub open spec fn spec_file_name(s: Seq<u8>) -> Option<Seq<u8>> {
    let t = if s.len() > 0 && s.last() == 47u8 {
        s.drop_last()
    } else {
        s
    };
    if t.len() == 0 {
        None
    } else {
        Some(after_last_slash(t))
    }
}

/// Calls `dream_path::file_name_normalized`: the source strips one trailing `/`,
/// answers `None` for an empty rest, and otherwise returns the bytes after the last
/// `/` of that rest.
#[verifier::external_body]
fn file_name_outside(path: &[u8]) -> (name: Option<Vec<u8>>)
    ensures
        name matches Some(v) ==> spec_file_name(path@) == Some(v@),
        name is None ==> spec_file_name(path@) is None,
{
    dream_path::file_name_normalized(path).map(|name| name.to_vec())
}

/// The host target that keeps only the file name of `normalized`.
pub open spec fn spec_flat_target(root: Seq<u8>, normalized: Seq<u8>) -> Option<Seq<u8>> {
    match spec_file_name(spec_normalize(normalized)) {
        Some(name) => Some(host_push(root, name)),
        None => None,
    }
}

/// Host target for a normalized archive path, discarding its directories.
pub fn flat_target_path_normalized(root: &[u8], normalized: &[u8]) -> (r: Result<Vec<u8>>)
    ensures
        r is Ok <==> is_safe_archive_path(normalized@) && spec_flat_target(root@, normalized@) is Some,
        r matches Ok(t) ==> Some(t@) == spec_flat_target(root@, normalized@),
        r matches Err(e) ==> is_unsafe_path_error(e, normalized@),
{
    validate_archive_path_bytes_for_extraction(normalized)?;
    let renormalized = normalize_archive_path_bytes(normalized);
    match file_name_outside(renormalized.as_slice()) {
        Some(name) => {
            let mut target: Vec<u8> = Vec::new();
            let mut i: usize = 0;
            while i < root.len()
                invariant
                    i <= root@.len(),
                    target@ == root@.take(i as int),
                decreases root@.len() - i,
            {
                target.push(root[i]);
                assert(root@.take(i as int + 1) =~= root@.take(i as int).push(root@[i as int]));
                i = i + 1;
            }
            assert(root@.take(root@.len() as int) =~= root@);
            push_component(&mut target, &name);
            Ok(target)
        },
        None => Err(unsafe_path_error(normalized)),
    }
}

} // verus!
