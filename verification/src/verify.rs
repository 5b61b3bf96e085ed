//! The comparison protocol: each loaded record is held against the live
//! value recomputed for its file.  A missing file is reported but counted
//! neither as success nor failure; a value mismatch is counted; a record
//! whose action is no stored metric makes the whole verification fail.

use vstd::prelude::*;

use crate::enums::UserAction;
use crate::hash::{HashResult, RecordV};

verus! {

/// The mathematical shape of one finding.
pub ghost struct FindingV {
    pub path: Seq<char>,
    pub expected: u64,
    pub found: Option<u64>,
}

/// One reported discrepancy: the file is missing (`found` is `None`) or its
/// live value differs from the recorded one (`found` holds the live value).
pub struct Finding {
    pub path: String,
    pub expected: u64,
    pub found: Option<u64>,
}

impl View for Finding {
    type V = FindingV;

    open spec fn view(&self) -> FindingV {
        FindingV { path: self.path@, expected: self.expected, found: self.found }
    }
}

/// The outcome of verifying records against live values, front first:
/// `Err` when some record with a present file carries an action that is no
/// stored metric; otherwise the mismatch count and the findings, in record
/// order.  A missing file yields a finding but never counts as invalid.
pub open spec fn verify_spec(rs: Seq<RecordV>, live: Seq<Option<u64>>) -> Result<
    (int, Seq<FindingV>),
    (),
>
    decreases rs.len(),
{
    if rs.len() == 0 {
        Ok((0, Seq::empty()))
    } else {
        let rest = verify_spec(rs.drop_first(), live.drop_first());
        match live[0] {
            None => match rest {
                Ok(cf) => Ok(
                    (
                        cf.0,
                        seq![
                            (FindingV { path: rs[0].path, expected: rs[0].value, found: None }),
                        ] + cf.1,
                    ),
                ),
                Err(e) => Err(e),
            },
            Some(v) => if rs[0].action == UserAction::Check {
                Err(())
            } else if rs[0].value != v {
                match rest {
                    Ok(cf) => Ok(
                        (
                            cf.0 + 1,
                            seq![
                                (FindingV {
                                    path: rs[0].path,
                                    expected: rs[0].value,
                                    found: Some(v),
                                }),
                            ] + cf.1,
                        ),
                    ),
                    Err(e) => Err(e),
                }
            } else {
                rest
            },
        }
    }
}

/// Verifies loaded records against the live values the caller recomputed,
/// one per record (`None` where the file no longer exists).  Returns the
/// invalid count and the findings, or fails on a record whose action is no
/// stored metric.
pub fn verify_records(records: &Vec<HashResult>, live: &Vec<Option<u64>>) -> (r: Result<
    (u32, Vec<Finding>),
    String,
>)
    requires
        live@.len() == records@.len(),
        records@.len() <= u32::MAX,
    ensures
        r is Ok <==> verify_spec(records@.map_values(|h: HashResult| h@), live@) is Ok,
        r is Ok ==> verify_spec(records@.map_values(|h: HashResult| h@), live@) == Ok::<_, ()>(
            (
                r->Ok_0.0 as int,
                r->Ok_0.1@.map_values(|f: Finding| f@),
            ),
        ),
{
    let ghost views = records@.map_values(|h: HashResult| h@);
    let mut count: u32 = 0;
    let mut findings: Vec<Finding> = Vec::new();
    let mut i: usize = 0;
    proof {
        assert(views.skip(0) =~= views);
        assert(live@.skip(0) =~= live@);
        assert(findings@.map_values(|f: Finding| f@) =~= Seq::<FindingV>::empty());
    }
    while i < records.len()
        invariant
            0 <= i <= records@.len(),
            live@.len() == records@.len(),
            records@.len() <= u32::MAX,
            views == records@.map_values(|h: HashResult| h@),
            views.len() == records@.len(),
            count <= i,
            verify_spec(views, live@) == (match verify_spec(
                views.skip(i as int),
                live@.skip(i as int),
            ) {
                Ok(cf) => Ok::<_, ()>(
                    (
                        count + cf.0,
                        findings@.map_values(|f: Finding| f@) + cf.1,
                    ),
                ),
                Err(e) => Err(e),
            }),
        decreases records@.len() - i,
    {
        proof {
            assert(views.skip(i as int)[0] == views[i as int]);
            assert(live@.skip(i as int)[0] == live@[i as int]);
            assert(views.skip(i as int).drop_first() =~= views.skip(i as int + 1));
            assert(live@.skip(i as int).drop_first() =~= live@.skip(i as int + 1));
            assert(views[i as int] == records@[i as int]@);
        }
        let rec = &records[i];
        match live[i] {
            None => {
                let ghost f_old = findings@.map_values(|f: Finding| f@);
                let f = Finding { path: rec.relative_path.clone(), expected: rec.value, found: None };
                findings.push(f);
                proof {
                    assert(findings@.map_values(|f: Finding| f@) =~= f_old + seq![f@]);
                    assert forall|x: Seq<FindingV>|
                        f_old + (seq![f@] + x) =~= (f_old + seq![f@]) + x by {}
                }
            },
            Some(v) => {
                if rec.action == UserAction::Check {
                    return Err(String::from_str("the manifest holds an action with no metric"));
                }
                if rec.value != v {
                    count = count + 1;
                    let ghost f_old = findings@.map_values(|f: Finding| f@);
                    let f = Finding {
                        path: rec.relative_path.clone(),
                        expected: rec.value,
                        found: Some(v),
                    };
                    findings.push(f);
                    proof {
                        assert(findings@.map_values(|f: Finding| f@) =~= f_old + seq![f@]);
                        assert forall|x: Seq<FindingV>|
                            f_old + (seq![f@] + x) =~= (f_old + seq![f@]) + x by {}
                    }
                }
            },
        }
        i += 1;
    }
    proof {
        assert(views.skip(views.len() as int) =~= Seq::<RecordV>::empty());
        assert(live@.skip(views.len() as int) =~= Seq::<Option<u64>>::empty());
        assert(verify_spec(Seq::<RecordV>::empty(), Seq::<Option<u64>>::empty()) == Ok::<_, ()>((
            0int,
            Seq::<FindingV>::empty(),
        )));
        assert(findings@.map_values(|f: Finding| f@) + Seq::<FindingV>::empty() =~= findings@
            .map_values(|f: Finding| f@));
    }
    Ok((count, findings))
}

/// With every file present, every action a stored metric, and every live
/// value equal to the recorded one, verification passes with no findings.
proof fn lemma_all_match(rs: Seq<RecordV>, live: Seq<Option<u64>>)
    requires
        live.len() == rs.len(),
        forall|i: int| 0 <= i < rs.len() ==> (#[trigger] rs[i]).action != UserAction::Check,
        forall|i: int| 0 <= i < live.len() ==> (#[trigger] live[i]) is Some,
        forall|i: int| 0 <= i < rs.len() ==> (#[trigger] live[i])->0 == rs[i].value,
    ensures
        verify_spec(rs, live) == Ok::<_, ()>((0int, Seq::<FindingV>::empty())),
    decreases rs.len(),
{
    if rs.len() > 0 {
        assert(forall|i: int|
            0 <= i < rs.drop_first().len() ==> rs.drop_first()[i] == #[trigger] rs[i + 1]);
        assert(forall|i: int|
            0 <= i < live.drop_first().len() ==> live.drop_first()[i] == #[trigger] live[i + 1]);
        lemma_all_match(rs.drop_first(), live.drop_first());
    }
}

/// Law: tamper detection — when every file is present, every action is a
/// stored metric, and exactly one record's live value differs from the
/// recorded one, verification reports exactly one finding and an invalid
/// count of one.
pub proof fn lemma_tamper_detection(rs: Seq<RecordV>, live: Seq<Option<u64>>, t: int)
    requires
        live.len() == rs.len(),
        forall|i: int| 0 <= i < rs.len() ==> (#[trigger] rs[i]).action != UserAction::Check,
        forall|i: int| 0 <= i < live.len() ==> (#[trigger] live[i]) is Some,
        0 <= t < rs.len(),
        forall|i: int|
            0 <= i < rs.len() && i != t ==> (#[trigger] live[i])->0 == rs[i].value,
        live[t]->0 != rs[t].value,
    ensures
        verify_spec(rs, live) is Ok,
        (verify_spec(rs, live)->Ok_0).0 == 1,
        (verify_spec(rs, live)->Ok_0).1 == seq![
            (FindingV { path: rs[t].path, expected: rs[t].value, found: live[t] }),
        ],
    decreases rs.len(),
{
    assert(forall|i: int|
        0 <= i < rs.drop_first().len() ==> rs.drop_first()[i] == #[trigger] rs[i + 1]);
    assert(forall|i: int|
        0 <= i < live.drop_first().len() ==> live.drop_first()[i] == #[trigger] live[i + 1]);
    if t == 0 {
        lemma_all_match(rs.drop_first(), live.drop_first());
        assert(seq![
            (FindingV { path: rs[0].path, expected: rs[0].value, found: live[0] }),
        ] + Seq::<FindingV>::empty() =~= seq![
            (FindingV { path: rs[0].path, expected: rs[0].value, found: live[0] }),
        ]);
    } else {
        lemma_tamper_detection(rs.drop_first(), live.drop_first(), t - 1);
        assert(verify_spec(rs, live) == verify_spec(rs.drop_first(), live.drop_first()));
    }
}

/// Law: a deleted file is reported but not counted — when every other
/// record matches its live value and one record's file is missing,
/// verification passes with an invalid count of zero and a single
/// missing-file finding.
pub proof fn lemma_missing_not_counted(rs: Seq<RecordV>, live: Seq<Option<u64>>, t: int)
    requires
        live.len() == rs.len(),
        forall|i: int| 0 <= i < rs.len() ==> (#[trigger] rs[i]).action != UserAction::Check,
        0 <= t < rs.len(),
        forall|i: int| 0 <= i < live.len() && i != t ==> (#[trigger] live[i]) is Some,
        forall|i: int|
            0 <= i < rs.len() && i != t ==> (#[trigger] live[i])->0 == rs[i].value,
        live[t] is None,
    ensures
        verify_spec(rs, live) is Ok,
        (verify_spec(rs, live)->Ok_0).0 == 0,
        (verify_spec(rs, live)->Ok_0).1 == seq![
            (FindingV { path: rs[t].path, expected: rs[t].value, found: None }),
        ],
    decreases rs.len(),
{
    assert(forall|i: int|
        0 <= i < rs.drop_first().len() ==> rs.drop_first()[i] == #[trigger] rs[i + 1]);
    assert(forall|i: int|
        0 <= i < live.drop_first().len() ==> live.drop_first()[i] == #[trigger] live[i + 1]);
    if t == 0 {
        lemma_all_match(rs.drop_first(), live.drop_first());
        assert(seq![
            (FindingV { path: rs[0].path, expected: rs[0].value, found: None }),
        ] + Seq::<FindingV>::empty() =~= seq![
            (FindingV { path: rs[0].path, expected: rs[0].value, found: None }),
        ]);
    } else {
        lemma_missing_not_counted(rs.drop_first(), live.drop_first(), t - 1);
        assert(verify_spec(rs, live) == verify_spec(rs.drop_first(), live.drop_first()));
    }
}

} // verus!
