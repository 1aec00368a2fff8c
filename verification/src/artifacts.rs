//! The artifact registry: which manifest each artifact name stands for.
//!
//! The registry is a text file with one `name:value` record per line. It is
//! read whole, changed in memory and written whole.

use vstd::prelude::*;
use crate::error::{CasError, CasErrorView, ErrorKind};
use crate::text::{
    chars_of, find_char, lemma_position, lemma_position_is, position, push_char, string_of,
};

verus! {

/// One record as a value: the name and what it stands for.
pub type RecordView = (Seq<char>, Seq<char>);

/// A line without the carriage return that may end it.
pub open spec fn strip_cr(line: Seq<char>) -> Seq<char> {
    if line.len() > 0 && line.last() == '\r' {
        line.drop_last()
    } else {
        line
    }
}

/// The lines of a text. A line ends at a line feed, or at a carriage return
/// followed by a line feed; the last line need not be ended.
pub open spec fn lines(text: Seq<char>) -> Seq<Seq<char>>
    decreases text.len(),
{
    if text.len() == 0 {
        Seq::empty()
    } else {
        let n = position(text, '\n') as int;
        if n < text.len() {
            seq![strip_cr(text.take(n))] + lines(text.skip(n + 1))
        } else {
            seq![text]
        }
    }
}

/// Whether a line holds the separator between name and value.
pub open spec fn has_separator(line: Seq<char>) -> bool {
    position(line, ':') < line.len()
}

/// The record a line stands for: what is before its first `:` and what is after it.
pub open spec fn record_of(line: Seq<char>) -> RecordView {
    let i = position(line, ':') as int;
    (line.take(i), line.skip(i + 1))
}

/// Whether every line of the text is a record.
pub open spec fn well_formed(text: Seq<char>) -> bool {
    forall|i: int| 0 <= i < lines(text).len() ==> has_separator(#[trigger] lines(text)[i])
}

/// Whether line `k` is the first that is not a record.
pub open spec fn first_malformed(text: Seq<char>, k: int) -> bool {
    &&& 0 <= k < lines(text).len()
    &&& !has_separator(lines(text)[k])
    &&& forall|j: int| 0 <= j < k ==> has_separator(#[trigger] lines(text)[j])
}

/// The first line of a text that is not a record.
pub open spec fn malformed_line(text: Seq<char>) -> Seq<char> {
    lines(text)[choose|k: int| first_malformed(text, k)]
}

/// The words that introduce the line at which a registry is malformed.
pub open spec fn malformed_words() -> Seq<char> {
    "Malformed artifacts file: "@
}

/// The failure that reading a malformed text gives: it says that the
/// registry is malformed, and gives the first line that is not a record.
pub open spec fn malformed_error(text: Seq<char>) -> CasErrorView {
    CasErrorView { kind: ErrorKind::Malformed, detail: malformed_words() + malformed_line(text) }
}

/// Only one line is the first that is not a record.
pub proof fn lemma_malformed_line(text: Seq<char>, k: int)
    requires
        first_malformed(text, k),
    ensures
        !well_formed(text),
        malformed_line(text) == lines(text)[k],
{
}

/// The records of a text, line by line.
pub open spec fn records(text: Seq<char>) -> Seq<RecordView> {
    lines(text).map_values(|l: Seq<char>| record_of(l))
}

/// The text of a registry file: a file that is missing counts as empty.
pub open spec fn registry_text(contents: Option<&str>) -> Seq<char> {
    match contents {
        Some(text) => text@,
        None => Seq::empty(),
    }
}

/// The line that writes a record.
pub open spec fn record_line(r: RecordView) -> Seq<char> {
    r.0 + seq![':'] + r.1 + seq!['\n']
}

/// The text that writes the records, one line each, in order.
pub open spec fn serialized(rs: Seq<RecordView>) -> Seq<char>
    decreases rs.len(),
{
    if rs.len() == 0 {
        Seq::empty()
    } else {
        record_line(rs[0]) + serialized(rs.drop_first())
    }
}

/// What `name` stands for: the value of the first record with that name.
pub open spec fn lookup(rs: Seq<RecordView>, name: Seq<char>) -> Option<Seq<char>>
    decreases rs.len(),
{
    if rs.len() == 0 {
        None
    } else if rs[0].0 == name {
        Some(rs[0].1)
    } else {
        lookup(rs.drop_first(), name)
    }
}

/// The records with every record for `name` taken out.
pub open spec fn without(rs: Seq<RecordView>, name: Seq<char>) -> Seq<RecordView>
    decreases rs.len(),
{
    if rs.len() == 0 {
        Seq::empty()
    } else if rs.last().0 == name {
        without(rs.drop_last(), name)
    } else {
        without(rs.drop_last(), name).push(rs.last())
    }
}

/// The registry after `name` is registered for `value`: the last registration wins.
pub open spec fn put(rs: Seq<RecordView>, name: Seq<char>, value: Seq<char>) -> Seq<RecordView> {
    without(rs, name).push((name, value))
}

/// Reads a registry. Every line must be a record: the first line without a
/// `:` makes the whole registry malformed, and the failure gives that line
/// after the words `Malformed artifacts file`.
pub fn read_artifacts_file(contents: Option<&str>) -> (r: Result<Vec<(String, String)>, CasError>)
    ensures
        well_formed(registry_text(contents)) ==> (r matches Ok(rs) && rs.deep_view() == records(
            registry_text(contents),
        )),
        !well_formed(registry_text(contents)) ==> (r matches Err(e) && e@ == malformed_error(
            registry_text(contents),
        )),
{
    let text: Vec<char> = match contents {
        Some(s) => chars_of(s),
        None => Vec::new(),
    };
    let mut out: Vec<(String, String)> = Vec::new();
    let mut pos: usize = 0;
    let ghost mut done: Seq<Seq<char>> = Seq::empty();
    assert(text@.skip(0) == text@);
    while pos < text.len()
        invariant
            text@ == registry_text(contents),
            pos <= text.len(),
            lines(text@) == done + lines(text@.skip(pos as int)),
            out.deep_view() == done.map_values(|l: Seq<char>| record_of(l)),
            forall|i: int| 0 <= i < done.len() ==> has_separator(#[trigger] done[i]),
        decreases text.len() - pos,
    {
        let ghost rest = text@.skip(pos as int);
        let nl = find_char(&text, pos, text.len(), '\n');
        let end = if nl < text.len() && nl > pos && text[nl - 1] == '\r' {
            nl - 1
        } else {
            nl
        };
        let next = if nl < text.len() {
            nl + 1
        } else {
            nl
        };
        let ghost line = text@.subrange(pos as int, end as int);
        proof {
            if nl < text.len() {
                assert(strip_cr(rest.take(nl - pos)) == line);
                assert(rest.skip(nl - pos + 1) == text@.skip(next as int));
            }
        }
        let colon = find_char(&text, pos, end, ':');
        if colon == end {
            let line = string_of(&text, pos, end);
            let mut detail = "Malformed artifacts file: ".to_owned();
            detail.append(line.as_str());
            proof {
                lemma_malformed_line(text@, done.len() as int);
            }
            return Err(CasError::new(ErrorKind::Malformed, detail));
        }
        let name = string_of(&text, pos, colon);
        let value = string_of(&text, colon + 1, end);
        proof {
            assert(line.take(colon - pos) == text@.subrange(pos as int, colon as int));
            assert(line.skip(colon - pos + 1) == text@.subrange(colon + 1, end as int));
        }
        let ghost before = out.deep_view();
        out.push((name, value));
        proof {
            assert(out.deep_view() == before.push(record_of(line)));
            done = done.push(line);
        }
        pos = next;
    }
    Ok(out)
}

/// The value registered for `artifact_name`: that of the first record with that name.
pub fn find_artifact(artifact_name: &String, artifacts: &Vec<(String, String)>) -> (r: Option<
    String,
>)
    ensures
        r matches Some(v) ==> lookup(artifacts.deep_view(), artifact_name@) == Some(v@),
        r is None ==> lookup(artifacts.deep_view(), artifact_name@) is None,
{
    let ghost rs = artifacts.deep_view();
    let mut i: usize = 0;
    assert(rs.skip(0) == rs);
    while i < artifacts.len()
        invariant
            i <= artifacts.len(),
            rs == artifacts.deep_view(),
            lookup(rs, artifact_name@) == lookup(rs.skip(i as int), artifact_name@),
        decreases artifacts.len() - i,
    {
        assert(rs.skip(i as int).drop_first() == rs.skip(i + 1));
        if artifacts[i].0 == *artifact_name {
            return Some(artifacts[i].1.clone());
        }
        i += 1;
    }
    None
}

/// The registry after `artifact_name` is registered for `manifest_hash`:
/// every earlier record for the name is gone, and the new one comes last.
pub fn put_artifact(
    artifacts: &Vec<(String, String)>,
    artifact_name: String,
    manifest_hash: String,
) -> (r: Vec<(String, String)>)
    ensures
        r.deep_view() == put(artifacts.deep_view(), artifact_name@, manifest_hash@),
{
    let ghost rs = artifacts.deep_view();
    let mut kept: Vec<(String, String)> = Vec::new();
    let mut i: usize = 0;
    while i < artifacts.len()
        invariant
            i <= artifacts.len(),
            rs == artifacts.deep_view(),
            kept.deep_view() == without(rs.take(i as int), artifact_name@),
        decreases artifacts.len() - i,
    {
        assert(rs.take(i + 1).drop_last() == rs.take(i as int));
        if artifacts[i].0 != artifact_name {
            kept.push((artifacts[i].0.clone(), artifacts[i].1.clone()));
        }
        i += 1;
    }
    assert(rs.take(i as int) == rs);
    kept.push((artifact_name, manifest_hash));
    kept
}

/// Writes the records as text: `name:value` and a line feed for each, in order.
pub fn serialize_artifacts(artifacts: Vec<(String, String)>) -> (text: String)
    ensures
        text@ == serialized(artifacts.deep_view()),
{
    let ghost rs = artifacts.deep_view();
    let mut text = String::new();
    let mut i: usize = 0;
    assert(rs.skip(0) == rs);
    while i < artifacts.len()
        invariant
            i <= artifacts.len(),
            rs == artifacts.deep_view(),
            text@ + serialized(rs.skip(i as int)) == serialized(rs),
        decreases artifacts.len() - i,
    {
        assert(rs.skip(i as int).drop_first() == rs.skip(i + 1));
        text.append(artifacts[i].0.as_str());
        push_char(&mut text, ':');
        text.append(artifacts[i].1.as_str());
        push_char(&mut text, '\n');
        i += 1;
    }
    text
}

/// What `artifact_name` stands for in the registry with the given contents
/// (`None` where the file is missing), or `None` where it is not registered.
pub fn get_artifact(artifact_name: &String, contents: Option<&str>) -> (r: Result<
    Option<String>,
    CasError,
>)
    ensures
        well_formed(registry_text(contents)) ==> (r matches Ok(found) && (found matches Some(v)
            ==> lookup(records(registry_text(contents)), artifact_name@) == Some(v@)) && (found
            is None ==> lookup(records(registry_text(contents)), artifact_name@) is None)),
        !well_formed(registry_text(contents)) ==> (r matches Err(e) && e@ == malformed_error(
            registry_text(contents),
        )),
{
    match read_artifacts_file(contents) {
        Ok(artifacts) => Ok(find_artifact(artifact_name, &artifacts)),
        Err(e) => Err(e),
    }
}

/// The contents of the registry after `artifact_name` is registered for
/// `manifest_hash`, given its contents before (`None` where the file is missing).
pub fn add_artifact(artifact_name: String, manifest_hash: String, contents: Option<&str>) -> (r:
    Result<String, CasError>)
    ensures
        well_formed(registry_text(contents)) ==> (r matches Ok(text) && text@ == serialized(
            put(records(registry_text(contents)), artifact_name@, manifest_hash@),
        )),
        !well_formed(registry_text(contents)) ==> (r matches Err(e) && e@ == malformed_error(
            registry_text(contents),
        )),
{
    match read_artifacts_file(contents) {
        Ok(artifacts) => Ok(
            serialize_artifacts(put_artifact(&artifacts, artifact_name, manifest_hash)),
        ),
        Err(e) => Err(e),
    }
}

/// How many records `name` has.
pub open spec fn occurrences(rs: Seq<RecordView>, name: Seq<char>) -> nat
    decreases rs.len(),
{
    if rs.len() == 0 {
        0
    } else if rs.last().0 == name {
        occurrences(rs.drop_last(), name) + 1
    } else {
        occurrences(rs.drop_last(), name)
    }
}

/// The registry after the registrations `ops`, made in order.
pub open spec fn put_all(rs: Seq<RecordView>, ops: Seq<RecordView>) -> Seq<RecordView>
    decreases ops.len(),
{
    if ops.len() == 0 {
        rs
    } else {
        put(put_all(rs, ops.drop_last()), ops.last().0, ops.last().1)
    }
}

/// The value of the last registration of `name` among `ops`.
pub open spec fn last_put(ops: Seq<RecordView>, name: Seq<char>) -> Option<Seq<char>>
    decreases ops.len(),
{
    if ops.len() == 0 {
        None
    } else if ops.last().0 == name {
        Some(ops.last().1)
    } else {
        last_put(ops.drop_last(), name)
    }
}

/// A name that can be written and read back: it holds neither `:` nor a line feed.
pub open spec fn clean_name(name: Seq<char>) -> bool {
    !name.contains(':') && !name.contains('\n')
}

/// A value that can be written and read back: it holds no line feed and
/// does not end in a carriage return.
pub open spec fn clean_value(value: Seq<char>) -> bool {
    !value.contains('\n') && (value.len() > 0 ==> value.last() != '\r')
}

/// Whether every record can be written and read back.
pub open spec fn clean(rs: Seq<RecordView>) -> bool {
    forall|i: int| 0 <= i < rs.len() ==> clean_name((#[trigger] rs[i]).0) && clean_value(rs[i].1)
}

/// A record added at the end is found only where no earlier record has the name.
pub proof fn lemma_lookup_push(rs: Seq<RecordView>, r: RecordView, name: Seq<char>)
    ensures
        lookup(rs.push(r), name) == if lookup(rs, name) is Some {
            lookup(rs, name)
        } else if r.0 == name {
            Some(r.1)
        } else {
            None
        },
    decreases rs.len(),
{
    if rs.len() == 0 {
        assert(rs.push(r).drop_first() == rs);
    } else {
        assert(rs.push(r).drop_first() == rs.drop_first().push(r));
        lemma_lookup_push(rs.drop_first(), r, name);
    }
}

/// A name has a value exactly where it has a record.
pub proof fn lemma_lookup_occurrences(rs: Seq<RecordView>, name: Seq<char>)
    ensures
        lookup(rs, name) is Some <==> occurrences(rs, name) > 0,
    decreases rs.len(),
{
    if rs.len() > 0 {
        assert(rs == rs.drop_last().push(rs.last()));
        lemma_lookup_push(rs.drop_last(), rs.last(), name);
        lemma_lookup_occurrences(rs.drop_last(), name);
    }
}

/// Taking a name out leaves it no record, and leaves every other name what it had.
pub proof fn lemma_without(rs: Seq<RecordView>, name: Seq<char>, other: Seq<char>)
    ensures
        occurrences(without(rs, name), name) == 0,
        lookup(without(rs, name), name) is None,
        other != name ==> occurrences(without(rs, name), other) == occurrences(rs, other),
        other != name ==> lookup(without(rs, name), other) == lookup(rs, other),
        clean(rs) ==> clean(without(rs, name)),
    decreases rs.len(),
{
    if rs.len() > 0 {
        let init = rs.drop_last();
        let last = rs.last();
        lemma_without(init, name, other);
        assert(rs == init.push(last));
        lemma_lookup_push(init, last, other);
        if last.0 != name {
            let kept = without(init, name);
            assert(kept.push(last).drop_last() == kept);
            lemma_lookup_push(kept, last, name);
            lemma_lookup_push(kept, last, other);
        }
    }
}

/// After a registration the name stands for the new value and has exactly
/// one record; every other name stands for what it stood for and has as
/// many records as before.
pub proof fn lemma_put(rs: Seq<RecordView>, name: Seq<char>, value: Seq<char>, other: Seq<char>)
    ensures
        lookup(put(rs, name, value), name) == Some(value),
        occurrences(put(rs, name, value), name) == 1,
        other != name ==> lookup(put(rs, name, value), other) == lookup(rs, other),
        other != name ==> occurrences(put(rs, name, value), other) == occurrences(rs, other),
{
    let kept = without(rs, name);
    lemma_without(rs, name, other);
    lemma_lookup_push(kept, (name, value), name);
    lemma_lookup_push(kept, (name, value), other);
    assert(kept.push((name, value)).drop_last() == kept);
}

/// The last registration wins: after two registrations of one name, the
/// name stands for the second value.
pub proof fn lemma_last_write_wins(
    rs: Seq<RecordView>,
    name: Seq<char>,
    first: Seq<char>,
    second: Seq<char>,
)
    ensures
        lookup(put(put(rs, name, first), name, second), name) == Some(second),
        occurrences(put(put(rs, name, first), name, second), name) == 1,
{
    lemma_put(put(rs, name, first), name, second, name);
}

/// After any sequence of registrations, a name that was registered stands
/// for the value of its last registration and has exactly one record; a
/// name that was not is as it was.
pub proof fn lemma_put_all(rs: Seq<RecordView>, ops: Seq<RecordView>, name: Seq<char>)
    ensures
        last_put(ops, name) is Some ==> lookup(put_all(rs, ops), name) == last_put(ops, name)
            && occurrences(put_all(rs, ops), name) == 1,
        last_put(ops, name) is None ==> lookup(put_all(rs, ops), name) == lookup(rs, name)
            && occurrences(put_all(rs, ops), name) == occurrences(rs, name),
    decreases ops.len(),
{
    if ops.len() > 0 {
        lemma_put_all(rs, ops.drop_last(), name);
        lemma_put(put_all(rs, ops.drop_last()), ops.last().0, ops.last().1, name);
    }
}

/// Starting from a registry in which no name has two records, such as the
/// empty one, no sequence of registrations gives a name two records.
pub proof fn lemma_one_record_per_name(rs: Seq<RecordView>, ops: Seq<RecordView>)
    requires
        forall|name: Seq<char>| occurrences(rs, name) <= 1,
    ensures
        forall|name: Seq<char>| occurrences(#[trigger] put_all(rs, ops), name) <= 1,
{
    assert forall|name: Seq<char>| occurrences(#[trigger] put_all(rs, ops), name) <= 1 by {
        lemma_put_all(rs, ops, name);
    }
}

/// The line of a record, without the line feed that ends it.
pub open spec fn line_of(r: RecordView) -> Seq<char> {
    r.0 + seq![':'] + r.1
}

/// The line of a record with a clean name is read back as that record.
pub proof fn lemma_line_read_back(r: RecordView)
    requires
        clean_name(r.0),
    ensures
        has_separator(line_of(r)),
        record_of(line_of(r)) == r,
{
    let line = line_of(r);
    let n = r.0.len() as int;
    lemma_position_is(line, ':', n);
}

/// Whether the records can be written one to a line: no name holds `:` or
/// a line feed, and no value holds a line feed. The records of every
/// well-formed text are such.
pub open spec fn writable(rs: Seq<RecordView>) -> bool {
    forall|i: int|
        0 <= i < rs.len() ==> clean_name((#[trigger] rs[i]).0) && !rs[i].1.contains('\n')
}

/// A record as it is read back once written: a carriage return at the end
/// of its value is taken for a part of the line's end, and is lost.
pub open spec fn reread(r: RecordView) -> RecordView {
    (r.0, strip_cr(r.1))
}

/// The records as they are read back once written.
pub open spec fn reread_all(rs: Seq<RecordView>) -> Seq<RecordView> {
    rs.map_values(|r: RecordView| reread(r))
}

/// A text that begins with the line of a record has, as its first line,
/// the line of the record as it is read back.
pub proof fn lemma_first_line(r: RecordView, rest: Seq<char>)
    requires
        clean_name(r.0),
        !r.1.contains('\n'),
    ensures
        lines(record_line(r) + rest) == seq![line_of(reread(r))] + lines(rest),
{
    let text = record_line(r) + rest;
    let line = line_of(r);
    let n = line.len() as int;
    lemma_position_is(text, '\n', n);
    assert(text.take(n) == line);
    assert(text.skip(n + 1) == rest);
    if r.1.len() > 0 && r.1.last() == '\r' {
        assert(line.drop_last() == line_of(reread(r)));
    }
}

/// Records that are written are read back with their names, in their
/// order, and with their values but for a carriage return at the end.
pub proof fn lemma_written_is_read(rs: Seq<RecordView>)
    requires
        writable(rs),
    ensures
        well_formed(serialized(rs)),
        records(serialized(rs)) == reread_all(rs),
    decreases rs.len(),
{
    if rs.len() == 0 {
        assert(records(serialized(rs)) == reread_all(rs));
    } else {
        let rest = rs.drop_first();
        lemma_written_is_read(rest);
        lemma_first_line(rs[0], serialized(rest));
        lemma_line_read_back(reread(rs[0]));
        let ls = lines(serialized(rs));
        let rest_ls = lines(serialized(rest));
        assert(rest_ls.len() == records(serialized(rest)).len());
        assert forall|i: int| 0 <= i < ls.len() implies records(serialized(rs))[i] == reread_all(
            rs,
        )[i] by {
            if i > 0 {
                assert(records(serialized(rest))[i - 1] == reread_all(rest)[i - 1]);
            }
        }
    }
}

/// Clean records that are written are read back as they were.
pub proof fn lemma_read_back(rs: Seq<RecordView>)
    requires
        clean(rs),
    ensures
        well_formed(serialized(rs)),
        records(serialized(rs)) == rs,
{
    lemma_written_is_read(rs);
}

/// Read back, a name stands for what it stood for, but for a carriage
/// return at the end of the value.
pub proof fn lemma_reread_lookup(rs: Seq<RecordView>, name: Seq<char>)
    ensures
        lookup(reread_all(rs), name) == match lookup(rs, name) {
            Some(value) => Some(strip_cr(value)),
            None => None,
        },
    decreases rs.len(),
{
    if rs.len() > 0 {
        assert(reread_all(rs).drop_first() == reread_all(rs.drop_first()));
        lemma_reread_lookup(rs.drop_first(), name);
    }
}

/// Read back, a name has as many records as it had.
pub proof fn lemma_reread_occurrences(rs: Seq<RecordView>, name: Seq<char>)
    ensures
        occurrences(reread_all(rs), name) == occurrences(rs, name),
    decreases rs.len(),
{
    if rs.len() > 0 {
        assert(reread_all(rs).drop_last() == reread_all(rs.drop_last()));
        lemma_reread_occurrences(rs.drop_last(), name);
    }
}

/// Every line of a text is free of line feeds and made of characters of the text.
pub proof fn lemma_lines_chars(text: Seq<char>, i: int, j: int)
    requires
        0 <= i < lines(text).len(),
        0 <= j < lines(text)[i].len(),
    ensures
        lines(text)[i][j] != '\n',
        text.contains(lines(text)[i][j]),
    decreases text.len(),
{
    let n = position(text, '\n') as int;
    lemma_position(text, '\n');
    if n < text.len() {
        if i > 0 {
            lemma_lines_chars(text.skip(n + 1), i - 1, j);
        }
    }
}

/// The records of a well-formed text can be written one to a line.
pub proof fn lemma_parsed_writable(text: Seq<char>)
    requires
        well_formed(text),
    ensures
        writable(records(text)),
{
    let rs = records(text);
    assert forall|i: int| 0 <= i < rs.len() implies clean_name((#[trigger] rs[i]).0)
        && !rs[i].1.contains('\n') by {
        let line = lines(text)[i];
        let n = position(line, ':') as int;
        lemma_position(line, ':');
        let name = line.take(n);
        let value = line.skip(n + 1);
        assert forall|j: int| 0 <= j < name.len() implies name[j] != ':' && name[j] != '\n' by {
            lemma_lines_chars(text, i, j);
        }
        assert forall|j: int| 0 <= j < value.len() implies value[j] != '\n' by {
            lemma_lines_chars(text, i, j + n + 1);
        }
    }
}

/// The records of a well-formed text that holds no carriage return are clean.
pub proof fn lemma_parsed_clean(text: Seq<char>)
    requires
        well_formed(text),
        !text.contains('\r'),
    ensures
        clean(records(text)),
{
    let rs = records(text);
    assert forall|i: int| 0 <= i < rs.len() implies clean_name((#[trigger] rs[i]).0)
        && clean_value(rs[i].1) by {
        let line = lines(text)[i];
        let n = position(line, ':') as int;
        lemma_position(line, ':');
        let name = line.take(n);
        let value = line.skip(n + 1);
        assert forall|j: int| 0 <= j < name.len() implies name[j] != ':' && name[j] != '\n' by {
            lemma_lines_chars(text, i, j);
        }
        assert forall|j: int| 0 <= j < value.len() implies value[j] != '\n' && value[j]
            != '\r' by {
            lemma_lines_chars(text, i, j + n + 1);
        }
    }
}

/// Taking a name out of records that can be written leaves records that can be written.
pub proof fn lemma_without_writable(rs: Seq<RecordView>, name: Seq<char>)
    requires
        writable(rs),
    ensures
        writable(without(rs, name)),
    decreases rs.len(),
{
    if rs.len() > 0 {
        lemma_without_writable(rs.drop_last(), name);
    }
}

/// Written to the file and read again, a registration holds, whatever the
/// registry held before: the name has one record and stands for the value
/// it was registered for. Only a carriage return at the end of the value
/// is not read back.
pub proof fn lemma_registered_is_read_back(text: Seq<char>, name: Seq<char>, value: Seq<char>)
    requires
        well_formed(text),
        clean_name(name),
        !value.contains('\n'),
    ensures
        well_formed(serialized(put(records(text), name, value))),
        lookup(records(serialized(put(records(text), name, value))), name) == Some(
            strip_cr(value),
        ),
        occurrences(records(serialized(put(records(text), name, value))), name) == 1,
{
    let rs = records(text);
    let after = put(rs, name, value);
    lemma_parsed_writable(text);
    lemma_without_writable(rs, name);
    lemma_written_is_read(after);
    lemma_put(rs, name, value, name);
    lemma_reread_lookup(after, name);
    lemma_reread_occurrences(after, name);
}

} // verus!
