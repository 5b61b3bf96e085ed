//! The manifest codec: canonical line-oriented encoding of records, its
//! exact inverse, the manifest file-name convention, the self-checksum, and
//! the canonical (sorted) order of records.
//!
//! One record encodes as `<name>:<VALUE_HEX>,<relative_path>`; lines are
//! joined by a single newline with no trailing terminator.  Decoding skips
//! (and reports) lines that do not match that shape, while an unknown
//! action tag or an overflowing value is a fatal decode error.

use vstd::prelude::*;
use vstd::string::StringSliceAdditionalSpecFns;

use crate::enums::{name_of, parse_action, UserAction};
use crate::hash::{xxh3_of, xxh3_bytes, HashResult, RecordV};
use crate::text::{
    hex_char, hex_of, hex_run, hex_val, is_hex_char, is_word_char, lemma_find_nl_is,
    lemma_hex_of_chars, lemma_hex_roundtrip, lemma_hex_run, lemma_hex_run_is, lemma_lex_le_total,
    lemma_lex_le_trans, lemma_word_run, lemma_word_run_is, lex_le, lines_of, parse_hex_u64,
    split_lines, strip_cr, str_lex_le, to_hex, word_char, word_run,
};

verus! {

/// A path that can stand in a manifest line: nonempty and free of line
/// terminators.
pub open spec fn wf_path(p: Seq<char>) -> bool {
    p.len() > 0 && forall|i: int| 0 <= i < p.len() ==> #[trigger] p[i] != '\n' && p[i] != '\r'
}

/// A record whose encoded line parses back unchanged.
pub open spec fn wf_record(r: RecordV) -> bool {
    wf_path(r.path)
}

/// The manifest line of one record.
pub open spec fn line_of(r: RecordV) -> Seq<char> {
    name_of(r.action) + seq![':'] + hex_of(r.value) + seq![','] + r.path
}

/// The manifest text of a record sequence: lines joined by single newlines,
/// no trailing terminator.
pub open spec fn encode_records(rs: Seq<RecordV>) -> Seq<char>
    decreases rs.len(),
{
    if rs.len() == 0 {
        Seq::empty()
    } else if rs.len() == 1 {
        line_of(rs[0])
    } else {
        line_of(rs[0]) + seq!['\n'] + encode_records(rs.drop_first())
    }
}

/// The manifest file name for an action: its lowercase name plus the
/// manifest suffix.
pub open spec fn manifest_name_of(a: UserAction) -> Seq<char> {
    name_of(a) + ".hasher"@
}

/// A manifest's own file name carries the manifest suffix, so enumeration
/// (`get_all_local_files`) never feeds a manifest back into a scan.
pub proof fn lemma_manifest_name_excluded(a: UserAction)
    ensures
        crate::helper::is_manifest_name(manifest_name_of(a)),
{
    reveal_strlit(".hasher");
    lemma_name_chars(a);
    let m = manifest_name_of(a);
    assert(m.skip(m.len() - 7) =~= ".hasher"@);
}

/// Every action name is a nonempty run of word characters.
pub proof fn lemma_name_chars(a: UserAction)
    ensures
        name_of(a).len() >= 1,
        forall|i: int|
            0 <= i < name_of(a).len() ==> is_word_char(#[trigger] name_of(a)[i]) && name_of(a)[i]
                != ':' && name_of(a)[i] != ',' && name_of(a)[i] != '\n' && name_of(a)[i] != '\r',
{
    reveal_strlit("size");
    reveal_strlit("check");
    reveal_strlit("xxh3");
    assert("size"@ =~= seq!['s', 'i', 'z', 'e']);
    assert("check"@ =~= seq!['c', 'h', 'e', 'c', 'k']);
    assert("xxh3"@ =~= seq!['x', 'x', 'h', '3']);
    match a {
        UserAction::Size => {
            assert forall|i: int| 0 <= i < name_of(a).len() implies is_word_char(
                #[trigger] name_of(a)[i],
            ) && name_of(a)[i] != ':' && name_of(a)[i] != ',' && name_of(a)[i] != '\n' && name_of(
                a,
            )[i] != '\r' by {
                let s = seq!['s', 'i', 'z', 'e'];
                assert(name_of(a)[i] == s[i]);
                if i == 0 {
                } else if i == 1 {
                } else if i == 2 {
                }
            }
        },
        UserAction::Check => {
            assert forall|i: int| 0 <= i < name_of(a).len() implies is_word_char(
                #[trigger] name_of(a)[i],
            ) && name_of(a)[i] != ':' && name_of(a)[i] != ',' && name_of(a)[i] != '\n' && name_of(
                a,
            )[i] != '\r' by {
                let s = seq!['c', 'h', 'e', 'c', 'k'];
                assert(name_of(a)[i] == s[i]);
                if i == 0 {
                } else if i == 1 {
                } else if i == 2 {
                } else if i == 3 {
                }
            }
        },
        UserAction::XXH3 => {
            assert forall|i: int| 0 <= i < name_of(a).len() implies is_word_char(
                #[trigger] name_of(a)[i],
            ) && name_of(a)[i] != ':' && name_of(a)[i] != ',' && name_of(a)[i] != '\n' && name_of(
                a,
            )[i] != '\r' by {
                let s = seq!['x', 'x', 'h', '3'];
                assert(name_of(a)[i] == s[i]);
                if i == 0 {
                } else if i == 1 {
                } else if i == 2 {
                }
            }
        },
    }
}

/// Appending one more record extends the encoding by a newline and the
/// record's line.
proof fn lemma_encode_push(rs: Seq<RecordV>, r: RecordV)
    requires
        rs.len() > 0,
    ensures
        encode_records(rs.push(r)) == encode_records(rs) + seq!['\n'] + line_of(r),
    decreases rs.len(),
{
    if rs.len() == 1 {
        assert(rs.push(r).drop_first() =~= seq![r]);
        assert(encode_records(seq![r]) == line_of(seq![r][0]));
        assert(encode_records(rs.push(r)) =~= encode_records(rs) + seq!['\n'] + line_of(r));
    } else {
        lemma_encode_push(rs.drop_first(), r);
        assert(rs.push(r).drop_first() =~= rs.drop_first().push(r));
        assert(encode_records(rs.push(r)) =~= encode_records(rs) + seq!['\n'] + line_of(r));
    }
}

/// Serializes records to the manifest file name and the manifest text.
/// Records are written in sequence order; sort first (`sort_hash_results`)
/// for the canonical form.
pub fn encode_hash_results(action: &UserAction, results: &Vec<HashResult>) -> (r: (String, String))
    ensures
        r.0@ == manifest_name_of(*action),
        r.1@ == encode_records(results@.map_values(|h: HashResult| h@)),
{
    let ghost views = results@.map_values(|h: HashResult| h@);
    let mut file_name = action.name();
    proof {
        reveal_strlit(".hasher");
    }
    file_name.append(".hasher");
    let mut content = String::new();
    let mut i: usize = 0;
    proof {
        assert(views.take(0) =~= Seq::<RecordV>::empty());
    }
    while i < results.len()
        invariant
            0 <= i <= results.len(),
            views == results@.map_values(|h: HashResult| h@),
            views.len() == results@.len(),
            content@ == encode_records(views.take(i as int)),
        decreases results.len() - i,
    {
        if i > 0 {
            proof {
                reveal_strlit("\n");
            }
            content.append("\n");
        }
        let name = results[i].action.name();
        content.append(name.as_str());
        proof {
            reveal_strlit(":");
        }
        content.append(":");
        let hex = to_hex(results[i].value);
        content.append(hex.as_str());
        proof {
            reveal_strlit(",");
        }
        content.append(",");
        content.append(results[i].relative_path.as_str());
        proof {
            assert(views[i as int] == results@[i as int]@);
            assert(views.take(i as int + 1) =~= views.take(i as int).push(views[i as int]));
            if i == 0 {
                assert(content@ =~= line_of(views[0]));
                assert(encode_records(views.take(1)) == line_of(views.take(1)[0]));
            } else {
                lemma_encode_push(views.take(i as int), views[i as int]);
                assert(content@ =~= encode_records(views.take(i as int)) + seq!['\n'] + line_of(
                    views[i as int],
                ));
            }
        }
        i += 1;
    }
    proof {
        assert(views.take(views.len() as int) =~= views);
    }
    (file_name, content)
}

/// A fatal decode failure: the manifest cannot be interpreted.
#[derive(Clone, Copy, Debug, PartialEq, Eq, Structural)]
pub enum DecodeError {
    /// A well-formed line carries an action tag that is not a known action.
    UnknownAction,
    /// A well-formed line carries a value that does not fit in 64 bits.
    ValueOverflow,
}

/// Splits one line into its three fields — tag, hexadecimal value, path —
/// when the line matches `<word>+:<hex>+,<rest>` exactly; `None` otherwise.
pub open spec fn parse_line_spec(line: Seq<char>) -> Option<(Seq<char>, Seq<char>, Seq<char>)> {
    let a = word_run(line);
    if a < 1 || a >= line.len() || line[a] != ':' {
        None
    } else {
        let h = hex_run(line.skip(a + 1));
        let j = a + 1 + h;
        if h < 1 || j >= line.len() || line[j] != ',' || j + 1 >= line.len() {
            None
        } else {
            Some((line.take(a), line.subrange(a + 1, j), line.skip(j + 1)))
        }
    }
}

/// The value field of a matching line consists of hexadecimal digits.
pub proof fn lemma_parse_line_hex(line: Seq<char>)
    requires
        parse_line_spec(line) is Some,
    ensures
        forall|k: int|
            0 <= k < (parse_line_spec(line)->0).1.len() ==> is_hex_char(
                #[trigger] (parse_line_spec(line)->0).1[k],
            ),
{
    let a = word_run(line);
    lemma_word_run(line);
    let tail = line.skip(a + 1);
    lemma_hex_run(tail);
    let h = hex_run(tail);
    let value = (parse_line_spec(line)->0).1;
    assert forall|k: int| 0 <= k < value.len() implies is_hex_char(#[trigger] value[k]) by {
        assert(value[k] == tail[k]);
    }
}

/// Decodes a sequence of lines, front first: a line that does not match the
/// record shape is skipped and reported; an unknown tag or an overflowing
/// value on a matching line is fatal.
pub open spec fn decode_lines(lines: Seq<Seq<char>>) -> Result<
    (Seq<RecordV>, Seq<Seq<char>>),
    DecodeError,
>
    decreases lines.len(),
{
    if lines.len() == 0 {
        Ok((Seq::empty(), Seq::empty()))
    } else {
        match parse_line_spec(lines[0]) {
            None => match decode_lines(lines.drop_first()) {
                Ok(rw) => Ok((rw.0, seq![lines[0]] + rw.1)),
                Err(e) => Err(e),
            },
            Some(f) => match parse_action(f.0) {
                None => Err(DecodeError::UnknownAction),
                Some(act) => if hex_val(f.1) > u64::MAX {
                    Err(DecodeError::ValueOverflow)
                } else {
                    match decode_lines(lines.drop_first()) {
                        Ok(rw) => Ok(
                            (
                                seq![
                                    (RecordV { action: act, path: f.2, value: hex_val(f.1) as u64 }),
                                ] + rw.0,
                                rw.1,
                            ),
                        ),
                        Err(e) => Err(e),
                    }
                },
            },
        }
    }
}

/// Splits one line into its fields as `parse_line_spec` does.
fn parse_line_fields(line: &str) -> (r: Option<(String, String, String)>)
    ensures
        (match r {
            Some(t) => parse_line_spec(line@) == Some((t.0@, t.1@, t.2@)),
            None => parse_line_spec(line@) is None,
        }),
{
    let n = line.unicode_len();
    let mut a: usize = 0;
    while a < n && word_char(line.get_char(a))
        invariant
            0 <= a <= n,
            n == line@.len(),
            forall|k: int| 0 <= k < a ==> is_word_char(#[trigger] line@[k]),
        decreases n - a,
    {
        a += 1;
    }
    proof {
        lemma_word_run_is(line@, a as int);
    }
    if a < 1 || a >= n || line.get_char(a) != ':' {
        return None;
    }
    let mut j: usize = a + 1;
    while j < n && hex_char(line.get_char(j))
        invariant
            a + 1 <= j <= n,
            n == line@.len(),
            forall|k: int| a + 1 <= k < j ==> is_hex_char(#[trigger] line@[k]),
        decreases n - j,
    {
        j += 1;
    }
    let ghost tail = line@.skip(a as int + 1);
    proof {
        assert(forall|k: int| 0 <= k < tail.len() ==> tail[k] == #[trigger] line@[k + a + 1]);
        lemma_hex_run_is(tail, j - a - 1);
    }
    if j == a + 1 || j >= n || line.get_char(j) != ',' || j + 1 >= n {
        return None;
    }
    let tag = line.substring_char(0, a).to_owned();
    let value = line.substring_char(a + 1, j).to_owned();
    let path = line.substring_char(j + 1, n).to_owned();
    proof {
        assert(tag@ =~= line@.take(a as int));
        assert(value@ =~= line@.subrange(a as int + 1, j as int));
        assert(path@ =~= line@.skip(j as int + 1));
    }
    Some((tag, value, path))
}

/// Parses manifest text back into records.  Lines that do not match the
/// record shape are returned as skipped lines alongside the records; an
/// unknown action tag or a value over 64 bits aborts the decode.
pub fn hash_results_from_string(content: &str) -> (r: Result<
    (Vec<HashResult>, Vec<String>),
    DecodeError,
>)
    ensures
        r is Ok ==> decode_lines(lines_of(content@)) == Ok::<_, DecodeError>(
            (
                r->Ok_0.0@.map_values(|h: HashResult| h@),
                r->Ok_0.1@.map_values(|w: String| w@),
            ),
        ),
        r is Err ==> decode_lines(lines_of(content@)) == Err::<(Seq<RecordV>, Seq<Seq<char>>), _>(
            r->Err_0,
        ),
{
    let lines = split_lines(content);
    let ghost lviews = lines@.map_values(|l: String| l@);
    let mut rs: Vec<HashResult> = Vec::new();
    let mut ws: Vec<String> = Vec::new();
    let mut i: usize = 0;
    proof {
        assert(lviews.skip(0) =~= lviews);
        assert(rs@.map_values(|h: HashResult| h@) =~= Seq::<RecordV>::empty());
        assert(ws@.map_values(|w: String| w@) =~= Seq::<Seq<char>>::empty());
    }
    while i < lines.len()
        invariant
            0 <= i <= lines.len(),
            lviews == lines@.map_values(|l: String| l@),
            lviews.len() == lines@.len(),
            lviews == lines_of(content@),
            decode_lines(lviews) == (match decode_lines(lviews.skip(i as int)) {
                Ok(rw) => Ok::<_, DecodeError>(
                    (
                        rs@.map_values(|h: HashResult| h@) + rw.0,
                        ws@.map_values(|w: String| w@) + rw.1,
                    ),
                ),
                Err(e) => Err(e),
            }),
        decreases lines.len() - i,
    {
        let ghost tail = lviews.skip(i as int);
        proof {
            assert(tail[0] == lviews[i as int]);
            assert(tail.drop_first() =~= lviews.skip(i as int + 1));
        }
        match parse_line_fields(&lines[i]) {
            None => {
                let ghost ws_old = ws@.map_values(|w: String| w@);
                let skipped = lines[i].clone();
                proof {
                    assert(skipped@ == lviews[i as int]);
                }
                ws.push(skipped);
                proof {
                    assert(ws@.map_values(|w: String| w@) =~= ws_old + seq![lviews[i as int]]);
                    assert forall|x: Seq<Seq<char>>|
                        ws_old + (seq![lviews[i as int]] + x) =~= (ws_old + seq![
                            lviews[i as int],
                        ]) + x by {}
                }
            },
            Some(fields) => {
                let (tag, value, path) = fields;
                let act = match UserAction::from_str(tag.as_str()) {
                    Ok(act) => act,
                    Err(_) => {
                        return Err(DecodeError::UnknownAction);
                    },
                };
                proof {
                    lemma_parse_line_hex(lviews[i as int]);
                }
                let v = match parse_hex_u64(value.as_str()) {
                    Some(v) => v,
                    None => {
                        return Err(DecodeError::ValueOverflow);
                    },
                };
                let ghost rs_old = rs@.map_values(|h: HashResult| h@);
                let rec = HashResult { action: act, relative_path: path, value: v };
                rs.push(rec);
                proof {
                    assert(rs@.map_values(|h: HashResult| h@) =~= rs_old + seq![rec@]);
                    assert forall|x: Seq<RecordV>|
                        rs_old + (seq![rec@] + x) =~= (rs_old + seq![rec@]) + x by {}
                }
            },
        }
        i += 1;
    }
    proof {
        assert(lviews.skip(lviews.len() as int) =~= Seq::<Seq<char>>::empty());
        assert(decode_lines(Seq::<Seq<char>>::empty()) == Ok::<_, DecodeError>((
            Seq::<RecordV>::empty(),
            Seq::<Seq<char>>::empty(),
        )));
        assert(rs@.map_values(|h: HashResult| h@) + Seq::<RecordV>::empty() =~= rs@.map_values(
            |h: HashResult| h@,
        ));
        assert(ws@.map_values(|w: String| w@) + Seq::<Seq<char>>::empty() =~= ws@.map_values(
            |w: String| w@,
        ));
    }
    Ok((rs, ws))
}

/// The fingerprint of the manifest's own serialized bytes: its identity and
/// tamper marker, never stored inside the manifest.
pub fn self_checksum(content: &str) -> (r: u64)
    ensures
        r == xxh3_of(content.spec_bytes()),
{
    xxh3_bytes(content.as_bytes())
}

/// An encoded line has no line terminator, and parses back into exactly the
/// fields it was built from.
proof fn lemma_line_roundtrip(r: RecordV)
    requires
        wf_record(r),
    ensures
        line_of(r).len() > 0,
        forall|i: int| 0 <= i < line_of(r).len() ==> #[trigger] line_of(r)[i] != '\n',
        line_of(r).last() != '\r',
        parse_line_spec(line_of(r)) == Some((name_of(r.action), hex_of(r.value), r.path)),
{
    let nm = name_of(r.action);
    let hx = hex_of(r.value);
    let p = r.path;
    let ln = line_of(r);
    lemma_name_chars(r.action);
    lemma_hex_of_chars(r.value);
    assert(ln.len() == nm.len() + 1 + hx.len() + 1 + p.len());
    assert forall|k: int| 0 <= k < nm.len() implies is_word_char(#[trigger] ln[k]) && ln[k]
        != '\n' by {
        assert(ln[k] == nm[k]);
    }
    assert(ln[nm.len() as int] == ':');
    assert(!is_word_char(':'));
    lemma_word_run_is(ln, nm.len() as int);
    let tail = ln.skip(nm.len() as int + 1);
    assert forall|k: int| 0 <= k < hx.len() implies is_hex_char(#[trigger] tail[k]) by {
        assert(tail[k] == hx[k]);
    }
    assert(tail[hx.len() as int] == ln[nm.len() + 1 + hx.len() as int]);
    assert(ln[nm.len() + 1 + hx.len() as int] == ',');
    assert(!is_hex_char(','));
    lemma_hex_run_is(tail, hx.len() as int);
    let a = word_run(ln);
    let j = a + 1 + hex_run(ln.skip(a + 1));
    assert(a == nm.len());
    assert(j == nm.len() + 1 + hx.len());
    assert(j + 1 < ln.len());
    assert(ln.take(a) =~= nm);
    assert(ln.subrange(a + 1, j) =~= hx);
    assert(ln.skip(j + 1) =~= p);
    assert forall|i: int| 0 <= i < ln.len() implies #[trigger] ln[i] != '\n' by {
        if i < nm.len() {
        } else if i == nm.len() {
        } else if i < j {
            assert(ln[i] == hx[i - nm.len() - 1]);
        } else if i == j {
        } else {
            assert(ln[i] == p[i - j - 1]);
        }
    }
    assert(ln.last() == p.last());
}

/// The lines of an encoded manifest are exactly the records' lines.
proof fn lemma_encode_lines(rs: Seq<RecordV>)
    requires
        forall|i: int| 0 <= i < rs.len() ==> wf_record(#[trigger] rs[i]),
    ensures
        lines_of(encode_records(rs)) == rs.map_values(|r: RecordV| line_of(r)),
    decreases rs.len(),
{
    let f = |r: RecordV| line_of(r);
    if rs.len() == 0 {
        assert(lines_of(encode_records(rs)) =~= rs.map_values(f));
    } else if rs.len() == 1 {
        lemma_line_roundtrip(rs[0]);
        let ln = line_of(rs[0]);
        lemma_find_nl_is(ln, ln.len() as int);
        assert(lines_of(ln) == seq![ln]);
        assert(lines_of(encode_records(rs)) =~= rs.map_values(f));
    } else {
        assert(forall|i: int|
            0 <= i < rs.drop_first().len() ==> wf_record(#[trigger] rs.drop_first()[i]));
        lemma_encode_lines(rs.drop_first());
        lemma_line_roundtrip(rs[0]);
        let ln = line_of(rs[0]);
        let rest = encode_records(rs.drop_first());
        let s = encode_records(rs);
        assert(s == ln + seq!['\n'] + rest);
        assert forall|k: int| 0 <= k < ln.len() implies #[trigger] s[k] != '\n' by {
            assert(s[k] == ln[k]);
        }
        assert(s[ln.len() as int] == '\n');
        lemma_find_nl_is(s, ln.len() as int);
        assert(rest.len() > 0) by {
            lemma_name_chars(rs.drop_first()[0].action);
            if rs.drop_first().len() == 1 {
            }
        }
        assert(s.take(ln.len() as int) =~= ln);
        assert(strip_cr(ln) == ln);
        assert(s.skip(ln.len() as int + 1) =~= rest);
        assert(lines_of(s) == seq![ln] + lines_of(rest));
        assert(rs.drop_first().map_values(f) =~= rs.map_values(f).drop_first());
        assert(lines_of(s) =~= rs.map_values(f));
    }
}

/// Decoding the records' own lines yields the records, with nothing skipped.
proof fn lemma_decode_encoded(rs: Seq<RecordV>)
    requires
        forall|i: int| 0 <= i < rs.len() ==> wf_record(#[trigger] rs[i]),
    ensures
        decode_lines(rs.map_values(|r: RecordV| line_of(r))) == Ok::<_, DecodeError>(
            (rs, Seq::<Seq<char>>::empty()),
        ),
    decreases rs.len(),
{
    let f = |r: RecordV| line_of(r);
    let lines = rs.map_values(f);
    if rs.len() == 0 {
        assert(lines =~= Seq::<Seq<char>>::empty());
        assert(rs =~= Seq::<RecordV>::empty());
    } else {
        assert(forall|i: int|
            0 <= i < rs.drop_first().len() ==> wf_record(#[trigger] rs.drop_first()[i]));
        lemma_decode_encoded(rs.drop_first());
        lemma_line_roundtrip(rs[0]);
        crate::enums::lemma_parse_action_name(rs[0].action);
        lemma_hex_roundtrip(rs[0].value);
        assert(lines[0] == line_of(rs[0]));
        assert(lines.drop_first() =~= rs.drop_first().map_values(f));
        assert(parse_line_spec(lines[0]) == Some(
            (name_of(rs[0].action), hex_of(rs[0].value), rs[0].path),
        ));
        assert(hex_val(hex_of(rs[0].value)) <= u64::MAX);
        assert(hex_val(hex_of(rs[0].value)) as u64 == rs[0].value);
        assert((RecordV {
            action: rs[0].action,
            path: rs[0].path,
            value: hex_val(hex_of(rs[0].value)) as u64,
        }) == rs[0]);
        assert(decode_lines(lines.drop_first()) == Ok::<_, DecodeError>(
            (rs.drop_first(), Seq::<Seq<char>>::empty()),
        ));
        assert(seq![rs[0]] + rs.drop_first() =~= rs);
        assert(decode_lines(lines) == Ok::<_, DecodeError>((rs, Seq::<Seq<char>>::empty())));
    }
}

/// Law: round trip — decoding an encoded manifest returns exactly the
/// records that were encoded, in order, with no skipped lines and no error,
/// for every record sequence whose paths are nonempty and free of line
/// terminators.
pub proof fn lemma_round_trip(rs: Seq<RecordV>)
    requires
        forall|i: int| 0 <= i < rs.len() ==> wf_record(#[trigger] rs[i]),
    ensures
        decode_lines(lines_of(encode_records(rs))) == Ok::<_, DecodeError>(
            (rs, Seq::<Seq<char>>::empty()),
        ),
{
    lemma_encode_lines(rs);
    lemma_decode_encoded(rs);
}

/// The canonical order of records: by relative path, lexicographically.
pub open spec fn record_le(x: RecordV, y: RecordV) -> bool {
    lex_le(x.path, y.path)
}

/// Sorts records by relative path, turning the unordered result of a
/// parallel scan into the canonical sequence, so that an unchanged tree
/// always encodes to the same bytes.
pub fn sort_hash_results(v: &mut Vec<HashResult>)
    ensures
        final(v)@.to_multiset() == old(v)@.to_multiset(),
        final(v)@.len() == old(v)@.len(),
        vstd::relations::sorted_by(
            final(v)@.map_values(|h: HashResult| h@),
            |x: RecordV, y: RecordV| record_le(x, y),
        ),
{
    broadcast use vstd::seq_lib::to_multiset_remove;
    broadcast use vstd::seq_lib::to_multiset_insert;
    broadcast use vstd::seq_lib::to_multiset_contains;
    broadcast use vstd::multiset::group_multiset_axioms;

    let n = v.len();
    let mut i: usize = 1;
    while i < n
        invariant
            1 <= i <= n || n == 0,
            n == v.len(),
            v@.to_multiset() == old(v)@.to_multiset(),
            v@.len() == old(v)@.len(),
            forall|p: int, q: int| 0 <= p < q < i ==> record_le(#[trigger] v@[p]@, #[trigger] v@[q]@),
        decreases n - i,
    {
        let mut k: usize = 0;
        while k < i && str_lex_le(v[k].relative_path.as_str(), v[i].relative_path.as_str())
            invariant
                0 <= k <= i < n,
                n == v.len(),
                forall|p: int| 0 <= p < k ==> record_le(#[trigger] v@[p]@, v@[i as int]@),
            decreases i - k,
        {
            k += 1;
        }
        proof {
            if k < i {
                lemma_lex_le_total(v@[k as int]@.path, v@[i as int]@.path);
                assert(record_le(v@[i as int]@, v@[k as int]@));
            }
        }
        let ghost oldv = v@;
        let x = v.remove(i);
        v.insert(k, x);
        proof {
            let ghost w = oldv.remove(i as int);
            let ghost x0 = oldv[i as int];
            assert(v@ == w.insert(k as int, x0));
            vstd::seq_lib::to_multiset_contains(oldv, x0);
            vstd::seq_lib::to_multiset_remove(oldv, i as int);
            vstd::seq_lib::to_multiset_insert(w, k as int, x0);
            assert(oldv.contains(x0));
            assert(oldv.to_multiset().count(x0) > 0);
            assert(w.to_multiset() == oldv.to_multiset().remove(x0));
            assert(v@.to_multiset() == w.to_multiset().insert(x0));
            assert(v@.to_multiset() =~= oldv.to_multiset());
            assert(forall|p: int| 0 <= p < i ==> w[p] == oldv[p] || w[p] == oldv[p + 1]);
            assert forall|p: int| 0 <= p < k implies v@[p] == oldv[p] by {
                assert(w[p] == oldv[p]);
            }
            assert(v@[k as int] == oldv[i as int]);
            assert forall|p: int| k < p <= i implies v@[p] == oldv[p - 1] by {
                assert(w[p - 1] == oldv[p - 1]);
            }
            assert forall|p: int, q: int| 0 <= p < q <= i implies record_le(
                v@[p]@,
                v@[q]@,
            ) by {
                if q < k {
                } else if q == k {
                    assert(record_le(oldv[p]@, oldv[i as int]@));
                } else if p < k {
                    assert(v@[p] == oldv[p]);
                    assert(v@[q] == oldv[q - 1]);
                    assert(record_le(oldv[p]@, oldv[q - 1]@));
                } else if p == k {
                    assert(v@[q] == oldv[q - 1]);
                    if k <= q - 1 && q - 1 < i && k < q - 1 {
                        assert(record_le(oldv[k as int]@, oldv[q - 1]@));
                        lemma_lex_le_trans(
                            v@[p]@.path,
                            oldv[k as int]@.path,
                            oldv[q - 1]@.path,
                        );
                    }
                } else {
                    assert(v@[p] == oldv[p - 1]);
                    assert(v@[q] == oldv[q - 1]);
                    assert(record_le(oldv[p - 1]@, oldv[q - 1]@));
                }
            }
        }
        i += 1;
    }
}

/// Law: the self-checksum is stable — any two texts holding the encoding of
/// the same record sequence carry the same checksum.
pub proof fn lemma_self_checksum_stable(rs: Seq<RecordV>, c1: &str, c2: &str)
    requires
        c1@ == encode_records(rs),
        c2@ == encode_records(rs),
    ensures
        xxh3_of(c1.spec_bytes()) == xxh3_of(c2.spec_bytes()),
{
}

} // verus!
