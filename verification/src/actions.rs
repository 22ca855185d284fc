//! The action record: the log's wire unit. A log line is one action, a
//! tagged union of `Add`, `Remove` and `Metadata`, written as a
//! discriminated JSON object. The metadata tag's wire label is the irregular
//! `metaData`, kept exactly for compatibility.

use vstd::prelude::*;
use crate::error::DeltaError;
use crate::json::{
    e_bool, e_jstr, e_lit, e_num, enc_bool, enc_jstr, lemma_p_bool_enc, lemma_p_jstr_enc,
    lemma_p_lit, lemma_p_num_enc, p_bool, p_jstr, p_lit, p_num, push_bool, push_jstr, push_num,
};
use crate::metadata::{
    e_meta, enc_meta, lemma_p_meta_enc, p_meta, push_meta, DeltaTableMetadata, MetadataView,
};
use crate::schema::pairs_view;
use crate::text::{chars_of_str, dec_digits, is_digit, push_str_chars, string_from_chars};

verus! {

/// One transaction-log entry: a data file added, a data file logically
/// removed, or a metadata snapshot.
#[derive(Debug, PartialEq, Eq, Clone)]
pub enum Action {
    Add {
        path: String,
        partition_values: Vec<(String, String)>,
        size: u64,
        modification_time: u128,
        data_change: bool,
    },
    Remove { path: String, data_change: bool },
    Metadata(DeltaTableMetadata),
}

/// The mathematical shape of an action.
#[verifier::ext_equal]
pub enum ActionView {
    Add {
        path: Seq<char>,
        partition_values: Seq<(Seq<char>, Seq<char>)>,
        size: u64,
        modification_time: u128,
        data_change: bool,
    },
    Remove { path: Seq<char>, data_change: bool },
    Metadata(MetadataView),
}

impl View for Action {
    type V = ActionView;

    open spec fn view(&self) -> ActionView {
        match self {
            Action::Add { path, partition_values, size, modification_time, data_change } => ActionView::Add {
                path: path@,
                partition_values: pairs_view(partition_values@),
                size: *size,
                modification_time: *modification_time,
                data_change: *data_change,
            },
            Action::Remove { path, data_change } => ActionView::Remove {
                path: path@,
                data_change: *data_change,
            },
            Action::Metadata(m) => ActionView::Metadata(m@),
        }
    }
}

/// The parts of an action the protocol pins empty are empty. An add action
/// carries no partition values, and a metadata snapshot carries no options,
/// partition columns or configuration.
pub open spec fn action_wf(a: ActionView) -> bool {
    match a {
        ActionView::Add { partition_values, .. } => partition_values.len() == 0,
        ActionView::Remove { .. } => true,
        ActionView::Metadata(m) => m.format.options.len() == 0 && m.partition_columns.len() == 0
            && m.configuration.len() == 0,
    }
}

// ---------------------------------------------------------------------------
// wire form
// ---------------------------------------------------------------------------

/// One action as one log line.
pub open spec fn enc_action(a: ActionView) -> Seq<char> {
    match a {
        ActionView::Add { path, partition_values, size, modification_time, data_change } => (
        "{\"add\":{\"path\":")@ + (enc_jstr(path) + ((",\"partitionValues\":{},\"size\":")@
            + (dec_digits(size as nat) + ((",\"modificationTime\":")@ + (dec_digits(
            modification_time as nat,
        ) + ((",\"dataChange\":")@ + (enc_bool(data_change) + ("}}")@))))))),
        ActionView::Remove { path, data_change } => ("{\"remove\":{\"path\":")@ + enc_jstr(path)
            + (",\"dataChange\":")@ + enc_bool(data_change) + ("}}")@,
        ActionView::Metadata(m) => ("{\"metaData\":")@ + enc_meta(m) + ("}")@,
    }
}

/// Parses the payload of an add action after its opening literal.
pub open spec fn p_add_payload(s: Seq<char>) -> Option<(ActionView, Seq<char>)> {
    match p_jstr(s) {
        None => None,
        Some((path, r1)) => match p_lit(r1, (",\"partitionValues\":{},\"size\":")@) {
            None => None,
            Some(r2) => match p_num(r2) {
                None => None,
                Some((size, r3)) => if size > u64::MAX {
                    None
                } else {
                    match p_lit(r3, (",\"modificationTime\":")@) {
                        None => None,
                        Some(r4) => match p_num(r4) {
                            None => None,
                            Some((mt, r5)) => match p_lit(r5, (",\"dataChange\":")@) {
                                None => None,
                                Some(r6) => match p_bool(r6) {
                                    None => None,
                                    Some((dc, r7)) => match p_lit(r7, ("}}")@) {
                                        None => None,
                                        Some(r8) => Some(
                                            (
                                                ActionView::Add {
                                                    path,
                                                    partition_values: Seq::empty(),
                                                    size: size as u64,
                                                    modification_time: mt as u128,
                                                    data_change: dc,
                                                },
                                                r8,
                                            ),
                                        ),
                                    },
                                },
                            },
                        },
                    }
                },
            },
        },
    }
}

/// Parses the payload of a remove action after its opening literal.
pub open spec fn p_remove_payload(s: Seq<char>) -> Option<(ActionView, Seq<char>)> {
    match p_jstr(s) {
        None => None,
        Some((path, r1)) => match p_lit(r1, (",\"dataChange\":")@) {
            None => None,
            Some(r2) => match p_bool(r2) {
                None => None,
                Some((dc, r3)) => match p_lit(r3, ("}}")@) {
                    None => None,
                    Some(r4) => Some((ActionView::Remove { path, data_change: dc }, r4)),
                },
            },
        },
    }
}

/// Parses one action.
pub open spec fn p_action(s: Seq<char>) -> Option<(ActionView, Seq<char>)> {
    match p_lit(s, ("{\"add\":{\"path\":")@) {
        Some(r) => p_add_payload(r),
        None => match p_lit(s, ("{\"remove\":{\"path\":")@) {
            Some(r) => p_remove_payload(r),
            None => match p_lit(s, ("{\"metaData\":")@) {
                Some(r) => match p_meta(r) {
                    None => None,
                    Some((m, r2)) => match p_lit(r2, ("}")@) {
                        None => None,
                        Some(r3) => Some((ActionView::Metadata(m), r3)),
                    },
                },
                None => None,
            },
        },
    }
}

/// A complete log line and nothing more.
pub open spec fn spec_decode_action(s: Seq<char>) -> Option<ActionView> {
    match p_action(s) {
        Some((a, r)) => if r.len() == 0 {
            Some(a)
        } else {
            None
        },
        None => None,
    }
}

// ---------------------------------------------------------------------------
// inversion: the action parser undoes the action encoder
// ---------------------------------------------------------------------------

proof fn reveal_action_tags()
    ensures
        ("{\"add\":{\"path\":")@.len() == 15,
        ("{\"remove\":{\"path\":")@.len() == 18,
        ("{\"metaData\":")@.len() == 12,
        ("{\"add\":{\"path\":")@[2] == 'a',
        ("{\"remove\":{\"path\":")@[2] == 'r',
        ("{\"metaData\":")@[2] == 'm',
{
    reveal_strlit("{\"add\":{\"path\":");
    reveal_strlit("{\"remove\":{\"path\":");
    reveal_strlit("{\"metaData\":");
}

#[verifier::rlimit(50)]
proof fn lemma_p_action_enc_add(a: ActionView, rest: Seq<char>)
    requires
        a is Add,
        action_wf(a),
    ensures
        p_action(enc_action(a) + rest) == Some((a, rest)),
{
    reveal_action_tags();
    let s = enc_action(a) + rest;
    if let ActionView::Add { path, partition_values, size, modification_time, data_change } = a {
        let v8 = ("}}")@ + rest;
        let v7 = enc_bool(data_change) + v8;
        let v6 = (",\"dataChange\":")@ + v7;
        let v5 = dec_digits(modification_time as nat) + v6;
        let v4 = (",\"modificationTime\":")@ + v5;
        let v3 = dec_digits(size as nat) + v4;
        let v2 = (",\"partitionValues\":{},\"size\":")@ + v3;
        let v1 = enc_jstr(path) + v2;
        assert(s =~= ("{\"add\":{\"path\":")@ + v1);
        lemma_p_lit(("{\"add\":{\"path\":")@, v1);
        lemma_p_jstr_enc(path, v2);
        lemma_p_lit((",\"partitionValues\":{},\"size\":")@, v3);
        assert(v4[0] == ',') by {
            reveal_strlit(",\"modificationTime\":");
        }
        assert(!is_digit(v4[0]));
        lemma_p_num_enc(size as u128, v4);
        lemma_p_lit((",\"modificationTime\":")@, v5);
        assert(v6[0] == ',') by {
            reveal_strlit(",\"dataChange\":");
        }
        assert(!is_digit(v6[0]));
        lemma_p_num_enc(modification_time, v6);
        lemma_p_lit((",\"dataChange\":")@, v7);
        lemma_p_bool_enc(data_change, v8);
        lemma_p_lit(("}}")@, rest);
        assert(p_action(s)->Some_0.0 =~~= a);
    }
}

#[verifier::rlimit(50)]
proof fn lemma_p_action_enc_remove(a: ActionView, rest: Seq<char>)
    requires
        a is Remove,
    ensures
        p_action(enc_action(a) + rest) == Some((a, rest)),
{
    reveal_action_tags();
    let s = enc_action(a) + rest;
    if let ActionView::Remove { path, data_change } = a {
        assert(s[2] == 'r') by {
            reveal_strlit("{\"remove\":{\"path\":");
        }
        if p_lit(s, ("{\"add\":{\"path\":")@) is Some {
            assert(s.take(15)[2] == s[2]);
            assert(false);
        }
        let t1 = enc_jstr(path) + (",\"dataChange\":")@ + enc_bool(data_change) + ("}}")@
            + rest;
        assert(s =~= ("{\"remove\":{\"path\":")@ + t1);
        lemma_p_lit(("{\"remove\":{\"path\":")@, t1);
        let t2 = (",\"dataChange\":")@ + enc_bool(data_change) + ("}}")@ + rest;
        assert(t1 =~= enc_jstr(path) + t2);
        lemma_p_jstr_enc(path, t2);
        let t3 = enc_bool(data_change) + ("}}")@ + rest;
        assert(t2 =~= (",\"dataChange\":")@ + t3);
        lemma_p_lit((",\"dataChange\":")@, t3);
        lemma_p_bool_enc(data_change, ("}}")@ + rest);
        lemma_p_lit(("}}")@, rest);
        assert(t3 =~= enc_bool(data_change) + (("}}")@ + rest));
        assert(p_action(s)->Some_0.0 =~~= a);
    }
}

#[verifier::rlimit(50)]
proof fn lemma_p_action_enc_meta(a: ActionView, rest: Seq<char>)
    requires
        a is Metadata,
        action_wf(a),
    ensures
        p_action(enc_action(a) + rest) == Some((a, rest)),
{
    reveal_action_tags();
    let s = enc_action(a) + rest;
    if let ActionView::Metadata(m) = a {
        assert(s[2] == 'm') by {
            reveal_strlit("{\"metaData\":");
        }
        if p_lit(s, ("{\"add\":{\"path\":")@) is Some {
            assert(s.take(15)[2] == s[2]);
            assert(false);
        }
        if p_lit(s, ("{\"remove\":{\"path\":")@) is Some {
            assert(s.take(18)[2] == s[2]);
            assert(false);
        }
        let t1 = enc_meta(m) + ("}")@ + rest;
        assert(s =~= ("{\"metaData\":")@ + t1);
        lemma_p_lit(("{\"metaData\":")@, t1);
        let t2 = ("}")@ + rest;
        assert(t1 =~= enc_meta(m) + t2);
        lemma_p_meta_enc(m, t2);
        lemma_p_lit(("}")@, rest);
        assert(p_action(s)->Some_0.0 =~~= a);
    }
}

pub proof fn lemma_p_action_enc(a: ActionView, rest: Seq<char>)
    requires
        action_wf(a),
    ensures
        p_action(enc_action(a) + rest) == Some((a, rest)),
{
    match a {
        ActionView::Add { .. } => lemma_p_action_enc_add(a, rest),
        ActionView::Remove { .. } => lemma_p_action_enc_remove(a, rest),
        ActionView::Metadata(_) => lemma_p_action_enc_meta(a, rest),
    }
}

/// Decoding what was encoded gives the action back, for every action whose
/// protocol-empty parts are empty.
pub proof fn lemma_action_round_trip(a: ActionView)
    requires
        action_wf(a),
    ensures
        spec_decode_action(enc_action(a)) == Some(a),
{
    lemma_p_action_enc(a, Seq::empty());
    assert(enc_action(a) + Seq::<char>::empty() =~= enc_action(a));
}

// ---------------------------------------------------------------------------
// executable codec
// ---------------------------------------------------------------------------

impl Action {
    /// Writes this action as one log line.
    pub fn encode(&self) -> (r: String)
        ensures
            r@ == enc_action(self@),
    {
        let mut out: Vec<char> = Vec::new();
        match self {
            Action::Add { path, partition_values, size, modification_time, data_change } => {
                push_str_chars(&mut out, "{\"add\":{\"path\":");
                push_jstr(&mut out, path.as_str());
                push_str_chars(&mut out, ",\"partitionValues\":{},\"size\":");
                push_num(&mut out, *size as u128);
                push_str_chars(&mut out, ",\"modificationTime\":");
                push_num(&mut out, *modification_time);
                push_str_chars(&mut out, ",\"dataChange\":");
                push_bool(&mut out, *data_change);
                push_str_chars(&mut out, "}}");
                proof {
                    assert(out@ =~= enc_action(self@));
                }
            },
            Action::Remove { path, data_change } => {
                push_str_chars(&mut out, "{\"remove\":{\"path\":");
                push_jstr(&mut out, path.as_str());
                push_str_chars(&mut out, ",\"dataChange\":");
                push_bool(&mut out, *data_change);
                push_str_chars(&mut out, "}}");
                proof {
                    assert(out@ =~= enc_action(self@));
                }
            },
            Action::Metadata(m) => {
                push_str_chars(&mut out, "{\"metaData\":");
                push_meta(&mut out, m);
                push_str_chars(&mut out, "}");
                proof {
                    assert(out@ =~= enc_action(self@));
                }
            },
        }
        string_from_chars(&out)
    }

    /// Reads one complete log line back; anything else is a
    /// `SerializationFailure`.
    pub fn decode(line: &str) -> (r: Result<Action, DeltaError>)
        ensures
            match r {
                Ok(a) => spec_decode_action(line@) == Some(a@),
                Err(e) => spec_decode_action(line@) is None && e
                    == DeltaError::SerializationFailure,
            },
    {
        let s = chars_of_str(line);
        match Action::decode_chars(&s) {
            Some(a) => Ok(a),
            None => Err(DeltaError::SerializationFailure),
        }
    }

    /// Reads one complete action out of a character vector.
    pub fn decode_chars(s: &Vec<char>) -> (r: Option<Action>)
        ensures
            match r {
                Some(a) => spec_decode_action(s@) == Some(a@),
                None => spec_decode_action(s@) is None,
            },
    {
        proof {
            assert(s@.skip(0) =~= s@);
        }
        let (a, j) = match Action::parse_at(s, 0) {
            Some(x) => x,
            None => {
                return None;
            },
        };
        if j != s.len() {
            proof {
                assert(s@.skip(j as int).len() != 0);
            }
            return None;
        }
        proof {
            assert(s@.skip(j as int).len() == 0);
        }
        Some(a)
    }

    /// Parses one action at position `i`.
    fn parse_at(s: &Vec<char>, i: usize) -> (r: Option<(Action, usize)>)
        requires
            i <= s@.len(),
        ensures
            match r {
                Some((a, j)) => i <= j <= s@.len() && p_action(s@.skip(i as int)) == Some(
                    (a@, s@.skip(j as int)),
                ),
                None => p_action(s@.skip(i as int)) is None,
            },
    {
        if let Some(j0) = e_lit(s, i, "{\"add\":{\"path\":") {
            let (path_cs, j1) = match e_jstr(s, j0) {
                Some(x) => x,
                None => {
                    return None;
                },
            };
            let j2 = match e_lit(s, j1, ",\"partitionValues\":{},\"size\":") {
                Some(j) => j,
                None => {
                    return None;
                },
            };
            let (size_wide, j3) = match e_num(s, j2) {
                Some(x) => x,
                None => {
                    return None;
                },
            };
            if size_wide > u64::MAX as u128 {
                return None;
            }
            let j4 = match e_lit(s, j3, ",\"modificationTime\":") {
                Some(j) => j,
                None => {
                    return None;
                },
            };
            let (mt, j5) = match e_num(s, j4) {
                Some(x) => x,
                None => {
                    return None;
                },
            };
            let j6 = match e_lit(s, j5, ",\"dataChange\":") {
                Some(j) => j,
                None => {
                    return None;
                },
            };
            let (dc, j7) = match e_bool(s, j6) {
                Some(x) => x,
                None => {
                    return None;
                },
            };
            let j8 = match e_lit(s, j7, "}}") {
                Some(j) => j,
                None => {
                    return None;
                },
            };
            let a = Action::Add {
                path: string_from_chars(&path_cs),
                partition_values: Vec::new(),
                size: size_wide as u64,
                modification_time: mt,
                data_change: dc,
            };
            proof {
                assert(pairs_view(Seq::<(String, String)>::empty()) =~= Seq::<
                    (Seq<char>, Seq<char>),
                >::empty());
                assert(p_action(s@.skip(i as int))->Some_0.0 =~~= a@);
            }
            return Some((a, j8));
        }
        if let Some(j0) = e_lit(s, i, "{\"remove\":{\"path\":") {
            let (path_cs, j1) = match e_jstr(s, j0) {
                Some(x) => x,
                None => {
                    return None;
                },
            };
            let j2 = match e_lit(s, j1, ",\"dataChange\":") {
                Some(j) => j,
                None => {
                    return None;
                },
            };
            let (dc, j3) = match e_bool(s, j2) {
                Some(x) => x,
                None => {
                    return None;
                },
            };
            let j4 = match e_lit(s, j3, "}}") {
                Some(j) => j,
                None => {
                    return None;
                },
            };
            let a = Action::Remove { path: string_from_chars(&path_cs), data_change: dc };
            proof {
                assert(p_action(s@.skip(i as int))->Some_0.0 =~~= a@);
            }
            return Some((a, j4));
        }
        if let Some(j0) = e_lit(s, i, "{\"metaData\":") {
            let (m, j1) = match e_meta(s, j0) {
                Some(x) => x,
                None => {
                    return None;
                },
            };
            let j2 = match e_lit(s, j1, "}") {
                Some(j) => j,
                None => {
                    return None;
                },
            };
            let a = Action::Metadata(m);
            proof {
                assert(p_action(s@.skip(i as int))->Some_0.0 =~~= a@);
            }
            return Some((a, j2));
        }
        None
    }
}

} // verus!
