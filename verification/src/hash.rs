//! Content identity: the XXH3 digest of a byte string, written in decimal.

use vstd::prelude::*;
use vstd::utf8::encode_utf8;
use xxhash_rust::xxh3::xxh3_64;
use crate::text::push_char;

verus! {

/// One manifest entry as a value: relative path, chunk id, executable flag.
pub type EntryView = (Seq<char>, Seq<char>, bool);

/// The 64-bit XXH3 digest (seed 0, default secret) of `input`.
pub uninterp spec fn xxh3_64_digest(input: Seq<u8>) -> u64;

/// Trusted: `xxhash_rust::xxh3::xxh3_64` computes the 64-bit XXH3 digest of
/// its input with seed 0 and the default secret. The digest depends on the
/// bytes alone; nothing else is claimed of it.
pub assume_specification[ xxhash_rust::xxh3::xxh3_64 ](input: &[u8]) -> (digest: u64)
    ensures
        digest == xxh3_64_digest(input@),
;

/// The character that writes the digit `d`.
pub open spec fn digit_char(d: int) -> char {
    if d == 0 {
        '0'
    } else if d == 1 {
        '1'
    } else if d == 2 {
        '2'
    } else if d == 3 {
        '3'
    } else if d == 4 {
        '4'
    } else if d == 5 {
        '5'
    } else if d == 6 {
        '6'
    } else if d == 7 {
        '7'
    } else if d == 8 {
        '8'
    } else {
        '9'
    }
}

/// `n` written in base ten, without sign or leading zeros.
pub open spec fn decimal(n: nat) -> Seq<char>
    decreases n,
{
    if n < 10 {
        seq![digit_char(n as int)]
    } else {
        decimal(n / 10).push(digit_char((n % 10) as int))
    }
}

/// The identifier of a chunk with the given content.
pub open spec fn chunk_id(content: Seq<u8>) -> Seq<char> {
    decimal(xxh3_64_digest(content) as nat)
}

/// How the executable flag is written inside the text that identifies a manifest.
pub open spec fn flag_text(executable: bool) -> Seq<char> {
    if executable {
        seq!['t', 'r', 'u', 'e']
    } else {
        seq!['f', 'a', 'l', 's', 'e']
    }
}

/// The text one entry contributes: path, chunk id and flag, with nothing between them.
pub open spec fn entry_text(e: EntryView) -> Seq<char> {
    e.0 + e.1 + flag_text(e.2)
}

/// The text that identifies a manifest: the texts of its entries, in order.
pub open spec fn manifest_text(entries: Seq<EntryView>) -> Seq<char>
    decreases entries.len(),
{
    if entries.len() == 0 {
        Seq::empty()
    } else {
        manifest_text(entries.drop_last()) + entry_text(entries.last())
    }
}

/// The identifier of a manifest with the given entries.
pub open spec fn manifest_id(entries: Seq<EntryView>) -> Seq<char> {
    chunk_id(encode_utf8(manifest_text(entries)))
}

fn digit(d: u64) -> (c: char)
    requires
        d < 10,
    ensures
        c == digit_char(d as int),
{
    match d {
        0 => '0',
        1 => '1',
        2 => '2',
        3 => '3',
        4 => '4',
        5 => '5',
        6 => '6',
        7 => '7',
        8 => '8',
        _ => '9',
    }
}

fn push_decimal(s: &mut String, n: u64)
    ensures
        final(s)@ == old(s)@ + decimal(n as nat),
    decreases n,
{
    if n >= 10 {
        push_decimal(s, n / 10);
    }
    push_char(s, digit(n % 10));
}

/// Writes `n` in base ten.
pub fn to_decimal(n: u64) -> (s: String)
    ensures
        s@ == decimal(n as nat),
{
    let mut s = String::new();
    push_decimal(&mut s, n);
    s
}

/// The identifier of the content `input`: its XXH3 digest in decimal.
///
/// The result is a function of the bytes alone, so equal contents always
/// get equal identifiers.
pub fn hash(input: &[u8]) -> (id: String)
    ensures
        id@ == chunk_id(input@),
{
    to_decimal(xxh3_64(input))
}

/// The identifier of a manifest: the digest of the UTF-8 text obtained by
/// writing, for each entry in order, its path, its chunk id and its flag
/// (`true` or `false`).
pub fn hash_manifest(input: &Vec<(String, String, bool)>) -> (id: String)
    ensures
        id@ == manifest_id(input.deep_view()),
{
    let mut text = String::new();
    let mut i: usize = 0;
    while i < input.len()
        invariant
            i <= input.len(),
            text@ == manifest_text(input.deep_view().take(i as int)),
        decreases input.len() - i,
    {
        let entry = &input[i];
        text.append(entry.0.as_str());
        text.append(entry.1.as_str());
        if entry.2 {
            proof {
                reveal_strlit("true");
            }
            text.append("true");
        } else {
            proof {
                reveal_strlit("false");
            }
            text.append("false");
        }
        proof {
            let upto = input.deep_view().take(i + 1);
            assert(upto.drop_last() == input.deep_view().take(i as int));
        }
        i += 1;
    }
    assert(input.deep_view().take(i as int) == input.deep_view());
    hash(text.as_str().as_bytes())
}

/// Different numbers are written differently.
pub proof fn lemma_decimal_injective(a: nat, b: nat)
    requires
        decimal(a) == decimal(b),
    ensures
        a == b,
    decreases a,
{
    if a < 10 && b < 10 {
        assert(decimal(a)[0] == digit_char(a as int));
        lemma_digit_injective(a as int, b as int);
    } else if a >= 10 && b >= 10 {
        assert(decimal(a).last() == digit_char((a % 10) as int));
        lemma_digit_injective((a % 10) as int, (b % 10) as int);
        assert(decimal(a).drop_last() == decimal(a / 10));
        assert(decimal(b).drop_last() == decimal(b / 10));
        lemma_decimal_injective(a / 10, b / 10);
    } else if a < 10 {
        lemma_decimal_long(b);
    } else {
        lemma_decimal_long(a);
    }
}

/// Different digits are written with different characters.
pub proof fn lemma_digit_injective(x: int, y: int)
    requires
        0 <= x < 10,
        0 <= y < 10,
        digit_char(x) == digit_char(y),
    ensures
        x == y,
{
}

/// A number below ten is written with one character, any other with more.
pub proof fn lemma_decimal_long(n: nat)
    ensures
        decimal(n).len() >= 1,
        n >= 10 ==> decimal(n).len() >= 2,
    decreases n,
{
    if n >= 10 {
        lemma_decimal_long(n / 10);
    }
}

/// Equal contents have equal identifiers.
pub proof fn lemma_same_content_same_id(a: Seq<u8>, b: Seq<u8>)
    requires
        a == b,
    ensures
        chunk_id(a) == chunk_id(b),
{
}

/// Two contents have the same identifier exactly where they have the same digest.
pub proof fn lemma_same_id_same_digest(a: Seq<u8>, b: Seq<u8>)
    ensures
        chunk_id(a) == chunk_id(b) <==> xxh3_64_digest(a) == xxh3_64_digest(b),
{
    if chunk_id(a) == chunk_id(b) {
        lemma_decimal_injective(xxh3_64_digest(a) as nat, xxh3_64_digest(b) as nat);
    }
}

/// The manifest without entries has the identifier of the empty content.
pub proof fn lemma_empty_manifest_id()
    ensures
        manifest_id(Seq::<EntryView>::empty()) == chunk_id(Seq::<u8>::empty()),
{
}

/// The text of entries put one after the other is their texts put one after the other.
pub proof fn lemma_manifest_text_concat(a: Seq<EntryView>, b: Seq<EntryView>)
    ensures
        manifest_text(a + b) == manifest_text(a) + manifest_text(b),
    decreases b.len(),
{
    if b.len() > 0 {
        assert((a + b).drop_last() == a + b.drop_last());
        lemma_manifest_text_concat(a, b.drop_last());
    }
}

/// The text of a manifest, cut at entry `i`: what is before the entry, the
/// entry, and what is after it.
pub proof fn lemma_manifest_text_at(entries: Seq<EntryView>, i: int)
    requires
        0 <= i < entries.len(),
    ensures
        manifest_text(entries) == manifest_text(entries.take(i)) + entry_text(entries[i])
            + manifest_text(entries.skip(i + 1)),
{
    let one = seq![entries[i]];
    assert(entries == entries.take(i) + one + entries.skip(i + 1));
    lemma_manifest_text_concat(entries.take(i) + one, entries.skip(i + 1));
    lemma_manifest_text_concat(entries.take(i), one);
    assert(one.drop_last() == Seq::<EntryView>::empty());
    assert(manifest_text(Seq::<EntryView>::empty()) == Seq::<char>::empty());
}

/// Texts that are equal around their middles have equal middles.
pub proof fn lemma_middle(a: Seq<char>, x: Seq<char>, y: Seq<char>, b: Seq<char>)
    requires
        a + x + b == a + y + b,
    ensures
        x == y,
{
    assert((a + x + b).len() == a.len() + x.len() + b.len());
    assert forall|k: int| 0 <= k < x.len() implies x[k] == y[k] by {
        assert((a + x + b)[a.len() + k] == x[k]);
    }
}

/// Whether two entries differ in one of path, chunk identifier and flag,
/// and are the same in the other two.
pub open spec fn differ_in_one_field(e1: EntryView, e2: EntryView) -> bool {
    ||| e1.0 != e2.0 && e1.1 == e2.1 && e1.2 == e2.2
    ||| e1.0 == e2.0 && e1.1 != e2.1 && e1.2 == e2.2
    ||| e1.0 == e2.0 && e1.1 == e2.1 && e1.2 != e2.2
}

/// A change of the path, of the chunk identifier or of the flag of one
/// entry changes the text that identifies the manifest, and with it the
/// bytes that are hashed.
pub proof fn lemma_field_change_changes_text(entries: Seq<EntryView>, i: int, changed: EntryView)
    requires
        0 <= i < entries.len(),
        differ_in_one_field(entries[i], changed),
    ensures
        manifest_text(entries.update(i, changed)) != manifest_text(entries),
        encode_utf8(manifest_text(entries.update(i, changed))) != encode_utf8(
            manifest_text(entries),
        ),
{
    let after = entries.update(i, changed);
    let e = entries[i];
    lemma_manifest_text_at(entries, i);
    lemma_manifest_text_at(after, i);
    assert(after.take(i) == entries.take(i));
    assert(after.skip(i + 1) == entries.skip(i + 1));
    if manifest_text(after) == manifest_text(entries) {
        lemma_middle(
            manifest_text(entries.take(i)),
            entry_text(changed),
            entry_text(e),
            manifest_text(entries.skip(i + 1)),
        );
        if e.2 != changed.2 {
        } else if e.1 != changed.1 {
            lemma_middle(e.0, e.1, changed.1, flag_text(e.2));
        } else {
            let rest = e.1 + flag_text(e.2);
            assert(entry_text(e) == e.0 + rest);
            assert forall|k: int| 0 <= k < e.0.len() implies e.0[k] == changed.0[k] by {
                assert((e.0 + rest)[k] == e.0[k]);
            }
            assert(e.0 =~= changed.0);
        }
    }
    lemma_text_bytes(manifest_text(after), manifest_text(entries));
}

/// Texts have the same bytes exactly where they are the same.
pub proof fn lemma_text_bytes(a: Seq<char>, b: Seq<char>)
    ensures
        encode_utf8(a) == encode_utf8(b) <==> a == b,
{
    vstd::utf8::encode_utf8_decode_utf8(a);
    vstd::utf8::encode_utf8_decode_utf8(b);
}

/// The text of a manifest, cut at the entries `i` and `j`: what is before
/// the first, the first, what is between them, the second, and what is
/// after it.
pub proof fn lemma_manifest_text_between(entries: Seq<EntryView>, i: int, j: int)
    requires
        0 <= i < j < entries.len(),
    ensures
        manifest_text(entries) == manifest_text(entries.take(i)) + entry_text(entries[i])
            + manifest_text(entries.subrange(i + 1, j)) + entry_text(entries[j]) + manifest_text(
            entries.skip(j + 1),
        ),
{
    let rest = entries.skip(i + 1);
    lemma_manifest_text_at(entries, i);
    lemma_manifest_text_at(rest, j - i - 1);
    assert(rest[j - i - 1] == entries[j]);
    assert(rest.take(j - i - 1) == entries.subrange(i + 1, j));
    assert(rest.skip(j - i) == entries.skip(j + 1));
    let before = manifest_text(entries.take(i));
    let x = entry_text(entries[i]);
    let between = manifest_text(entries.subrange(i + 1, j));
    let y = entry_text(entries[j]);
    let after = manifest_text(entries.skip(j + 1));
    assert(before + x + (between + y + after) =~= before + x + between + y + after);
}

/// Two entries that change places change the text that identifies the
/// manifest exactly where the two, with what is between them, do not read
/// the same in either order.
pub proof fn lemma_swap_changes_text_exactly(entries: Seq<EntryView>, i: int, j: int)
    requires
        0 <= i < j < entries.len(),
    ensures
        manifest_text(entries.update(i, entries[j]).update(j, entries[i])) != manifest_text(
            entries,
        ) <==> entry_text(entries[i]) + manifest_text(entries.subrange(i + 1, j)) + entry_text(
            entries[j],
        ) != entry_text(entries[j]) + manifest_text(entries.subrange(i + 1, j)) + entry_text(
            entries[i],
        ),
        encode_utf8(manifest_text(entries.update(i, entries[j]).update(j, entries[i])))
            != encode_utf8(manifest_text(entries)) <==> manifest_text(
            entries.update(i, entries[j]).update(j, entries[i]),
        ) != manifest_text(entries),
{
    let swapped = entries.update(i, entries[j]).update(j, entries[i]);
    lemma_manifest_text_between(entries, i, j);
    lemma_manifest_text_between(swapped, i, j);
    assert(swapped.take(i) == entries.take(i));
    assert(swapped.subrange(i + 1, j) == entries.subrange(i + 1, j));
    assert(swapped.skip(j + 1) == entries.skip(j + 1));
    let before = manifest_text(entries.take(i));
    let x = entry_text(entries[i]);
    let between = manifest_text(entries.subrange(i + 1, j));
    let y = entry_text(entries[j]);
    let after = manifest_text(entries.skip(j + 1));
    assert(manifest_text(entries) =~= before + (x + between + y) + after);
    assert(manifest_text(swapped) =~= before + (y + between + x) + after);
    if manifest_text(swapped) == manifest_text(entries) {
        lemma_middle(before, y + between + x, x + between + y, after);
    }
    lemma_text_bytes(manifest_text(swapped), manifest_text(entries));
}

/// Two entries that change places change the text that identifies the
/// manifest, where their own texts are of one length and differ.
pub proof fn lemma_swap_changes_text(entries: Seq<EntryView>, i: int, j: int)
    requires
        0 <= i < j < entries.len(),
        entry_text(entries[i]).len() == entry_text(entries[j]).len(),
        entry_text(entries[i]) != entry_text(entries[j]),
    ensures
        manifest_text(entries.update(i, entries[j]).update(j, entries[i])) != manifest_text(
            entries,
        ),
{
    let swapped = entries.update(i, entries[j]).update(j, entries[i]);
    lemma_manifest_text_at(entries, i);
    lemma_manifest_text_at(swapped, i);
    assert(swapped.take(i) == entries.take(i));
    let before = manifest_text(entries.take(i));
    let x = entry_text(entries[i]);
    let y = entry_text(entries[j]);
    let t1 = manifest_text(entries);
    let t2 = manifest_text(swapped);
    if t1 == t2 {
        assert forall|k: int| 0 <= k < x.len() implies x[k] == y[k] by {
            assert(t1[before.len() + k] == x[k]);
        }
        assert(x =~= y);
    }
}

/// Two manifests have the same identifier exactly where the bytes of their
/// texts have the same digest.
pub proof fn lemma_manifest_id_digest(a: Seq<EntryView>, b: Seq<EntryView>)
    ensures
        manifest_id(a) == manifest_id(b) <==> xxh3_64_digest(encode_utf8(manifest_text(a)))
            == xxh3_64_digest(encode_utf8(manifest_text(b))),
{
    lemma_same_id_same_digest(encode_utf8(manifest_text(a)), encode_utf8(manifest_text(b)));
}

/// A number is written with digits alone.
pub proof fn lemma_decimal_digits(n: nat, i: int)
    requires
        0 <= i < decimal(n).len(),
    ensures
        '0' <= decimal(n)[i] <= '9',
    decreases n,
{
    if n >= 10 && i < decimal(n / 10).len() {
        lemma_decimal_digits(n / 10, i);
    }
}

/// A number, as it is written, holds no line feed and no carriage return.
pub proof fn lemma_decimal_clean(n: nat)
    ensures
        !decimal(n).contains('\n'),
        decimal(n).len() > 0,
        decimal(n).last() != '\r',
{
    assert forall|i: int| 0 <= i < decimal(n).len() implies decimal(n)[i] != '\n' && decimal(
        n,
    )[i] != '\r' by {
        lemma_decimal_digits(n, i);
    }
}

} // verus!
