use vstd::prelude::*;
use crate::text::{
    chars_of, lemma_prefix_char, lemma_prefix_has_colon, lines, lines_of, starts_with, value_of,
};
use crate::whois::{
    assemble, build_record, date_of, extract_datetime_value, extract_string_value, key_date,
    key_value, lemma_key_of_one_line, or_else, outcome_of, CollectedFields, FieldLabels, Fields, Labels, ParseOutcome,
    WhoisData, WhoisError, no_fields,
};

verus! {

/// What one line of a response does to the reading: go on with these values, or end with this
/// outcome.
pub enum Step {
    Continue(Fields),
    Stop(ParseOutcome),
}

/// The names under which the AFNIC format reports missing values.
pub open spec fn afnic_labels() -> Labels {
    Labels {
        domain_name: "domain"@,
        status: "status"@,
        registrar: "registrar"@,
        registrant: "registrant"@,
        creation_date: "created"@,
        expiration_date: "Expiry Date"@,
        last_update_date: "last-update"@,
    }
}

/// One line of an AFNIC (`.fr`) response.
pub open spec fn afnic_step(f: Fields, l: Seq<char>) -> Step {
    if "%% Too many requests"@.is_prefix_of(l) {
        Step::Stop(ParseOutcome::TooManyRequests)
    } else if "%% No entries found"@.is_prefix_of(l) {
        Step::Stop(ParseOutcome::NoEntries)
    } else if "domain:"@.is_prefix_of(l) {
        Step::Continue(Fields { domain_name: Some(value_of(l)), ..f })
    } else if "status:"@.is_prefix_of(l) {
        Step::Continue(Fields { status: Some(value_of(l)), ..f })
    } else if "registrar:"@.is_prefix_of(l) {
        Step::Continue(Fields { registrar: Some(value_of(l)), ..f })
    } else if "Expiry Date:"@.is_prefix_of(l) {
        match date_of(l) {
            Some(t) => Step::Continue(Fields { expiration_date: Some(t), ..f }),
            None => Step::Stop(ParseOutcome::BadDate),
        }
    } else if "created:"@.is_prefix_of(l) {
        match date_of(l) {
            Some(t) => Step::Continue(Fields { creation_date: Some(t), ..f }),
            None => Step::Stop(ParseOutcome::BadDate),
        }
    } else if "last-update:"@.is_prefix_of(l) {
        match date_of(l) {
            Some(t) => Step::Continue(Fields { last_update_date: Some(t), ..f }),
            None => Step::Stop(ParseOutcome::BadDate),
        }
    } else if "contact:"@.is_prefix_of(l) {
        Step::Stop(assemble(Fields { registrant: Some(value_of(l)), ..f }, afnic_labels()))
    } else {
        Step::Continue(f)
    }
}

/// Reading the lines `ls` of an AFNIC response, from the values `f` on.
pub open spec fn afnic_run(ls: Seq<Seq<char>>, f: Fields) -> ParseOutcome
    decreases ls.len(),
{
    if ls.len() == 0 {
        assemble(f, afnic_labels())
    } else {
        match afnic_step(f, ls[0]) {
            Step::Continue(g) => afnic_run(ls.drop_first(), g),
            Step::Stop(o) => o,
        }
    }
}

/// What an AFNIC response says.
pub open spec fn afnic_outcome(response: Seq<char>) -> ParseOutcome {
    afnic_run(lines(response), no_fields())
}

/// Reads the response of the AFNIC WHOIS server (`.fr` domains).
pub fn parse_afnic_response(response: &str) -> (r: Result<Option<WhoisData>, WhoisError>)
    ensures
        outcome_of(r) == afnic_outcome(response@),
{
    let labels = FieldLabels {
        domain_name: "domain",
        status: "status",
        registrar: "registrar",
        registrant: "registrant",
        creation_date: "created",
        expiration_date: "Expiry Date",
        last_update_date: "last-update",
    };
    let ls = lines_of(response);
    let ghost all = lines(response@);
    let mut f = CollectedFields::new();
    let mut i: usize = 0;
    assert(all.skip(0) =~= all);
    while i < ls.len()
        invariant
            labels@ == afnic_labels(),
            all == lines(response@),
            ls@.len() == all.len(),
            forall|k: int| 0 <= k < ls@.len() ==> (#[trigger] ls@[k])@ == all[k],
            i <= ls.len(),
            afnic_outcome(response@) == afnic_run(all.skip(i as int), f@),
        decreases ls.len() - i,
    {
        let line = ls[i];
        let lc = chars_of(line);
        let ghost g = f@;
        proof {
            assert(all.skip(i as int)[0] == line@);
            assert(all.skip(i as int).drop_first() =~= all.skip(i + 1));
        }
        if starts_with(&lc, "%% Too many requests") {
            return Err(WhoisError::TooManyRequests);
        } else if starts_with(&lc, "%% No entries found") {
            return Ok(None);
        } else if starts_with(&lc, "domain:") {
            proof {
                reveal_strlit("domain:");
                lemma_prefix_has_colon("domain:"@, line@);
            }
            f.domain_name = Some(extract_string_value(line));
        } else if starts_with(&lc, "status:") {
            proof {
                reveal_strlit("status:");
                lemma_prefix_has_colon("status:"@, line@);
            }
            f.status = Some(extract_string_value(line));
        } else if starts_with(&lc, "registrar:") {
            proof {
                reveal_strlit("registrar:");
                lemma_prefix_has_colon("registrar:"@, line@);
            }
            f.registrar = Some(extract_string_value(line));
        } else if starts_with(&lc, "Expiry Date:") {
            proof {
                reveal_strlit("Expiry Date:");
                lemma_prefix_has_colon("Expiry Date:"@, line@);
            }
            match extract_datetime_value(line) {
                Ok(t) => f.expiration_date = Some(t),
                Err(e) => return Err(WhoisError::DateTimeParseError(e)),
            }
        } else if starts_with(&lc, "created:") {
            proof {
                reveal_strlit("created:");
                lemma_prefix_has_colon("created:"@, line@);
            }
            match extract_datetime_value(line) {
                Ok(t) => f.creation_date = Some(t),
                Err(e) => return Err(WhoisError::DateTimeParseError(e)),
            }
        } else if starts_with(&lc, "last-update:") {
            proof {
                reveal_strlit("last-update:");
                lemma_prefix_has_colon("last-update:"@, line@);
            }
            match extract_datetime_value(line) {
                Ok(t) => f.last_update_date = Some(t),
                Err(e) => return Err(WhoisError::DateTimeParseError(e)),
            }
        } else if starts_with(&lc, "contact:") {
            proof {
                reveal_strlit("contact:");
                lemma_prefix_has_colon("contact:"@, line@);
            }
            f.registrant = Some(extract_string_value(line));
            // The contact is the last value of a response.
            return build_record(f, &labels);
        }
        i = i + 1;
    }
    proof {
        assert(all.skip(i as int).len() == 0);
    }
    build_record(f, &labels)
}

/// Whether reading the lines `ls` from the values `f` ends at one of them: a refusal, an
/// empty answer, an unreadable date or the contact line, which closes a record.
pub open spec fn afnic_stops(ls: Seq<Seq<char>>, f: Fields) -> bool
    decreases ls.len(),
{
    if ls.len() == 0 {
        false
    } else {
        match afnic_step(f, ls[0]) {
            Step::Continue(g) => afnic_stops(ls.drop_first(), g),
            Step::Stop(_) => true,
        }
    }
}

/// Once the reading of an AFNIC response has ended at a line, whatever follows that line
/// does not change the outcome.
pub proof fn lemma_afnic_ignores_rest(ls: Seq<Seq<char>>, rest: Seq<Seq<char>>, f: Fields)
    requires
        afnic_stops(ls, f),
    ensures
        afnic_run(ls + rest, f) == afnic_run(ls, f),
    decreases ls.len(),
{
    assert((ls + rest)[0] == ls[0]);
    match afnic_step(f, ls[0]) {
        Step::Continue(g) => {
            assert((ls + rest).drop_first() =~= ls.drop_first() + rest);
            lemma_afnic_ignores_rest(ls.drop_first(), rest, g);
        },
        Step::Stop(_) => {},
    }
}

/// Whether the line `l` ends the reading of an AFNIC response, whatever was read before it: a
/// refusal, an empty answer, a date that does not read, or the contact line.
pub open spec fn afnic_ends(l: Seq<char>) -> bool {
    afnic_step(no_fields(), l) is Stop
}

/// The values `f` updated by the lines `ls`: each value is that of the last line with its key.
pub open spec fn afnic_overlay(f: Fields, ls: Seq<Seq<char>>) -> Fields {
    Fields {
        domain_name: or_else(key_value(ls, "domain:"@), f.domain_name),
        status: or_else(key_value(ls, "status:"@), f.status),
        registrar: or_else(key_value(ls, "registrar:"@), f.registrar),
        registrant: f.registrant,
        creation_date: or_else(key_date(ls, "created:"@), f.creation_date),
        expiration_date: or_else(key_date(ls, "Expiry Date:"@), f.expiration_date),
        last_update_date: or_else(key_date(ls, "last-update:"@), f.last_update_date),
    }
}

/// The outcome that the line `l` ending the reading gives, with the values `f` read before it.
pub open spec fn afnic_end(f: Fields, l: Seq<char>) -> ParseOutcome {
    if "%% Too many requests"@.is_prefix_of(l) {
        ParseOutcome::TooManyRequests
    } else if "%% No entries found"@.is_prefix_of(l) {
        ParseOutcome::NoEntries
    } else if "contact:"@.is_prefix_of(l) {
        assemble(Fields { registrant: Some(value_of(l)), ..f }, afnic_labels())
    } else {
        ParseOutcome::BadDate
    }
}

/// The characters by which the keys of the AFNIC format tell a line apart.
proof fn lemma_afnic_key_chars(l: Seq<char>)
    ensures
        "%% Too many requests"@.is_prefix_of(l) ==> l[0] == '%' && l[3] == 'T',
        "%% No entries found"@.is_prefix_of(l) ==> l[0] == '%' && l[3] == 'N',
        "domain:"@.is_prefix_of(l) ==> l[0] == 'd',
        "status:"@.is_prefix_of(l) ==> l[0] == 's',
        "registrar:"@.is_prefix_of(l) ==> l[0] == 'r',
        "Expiry Date:"@.is_prefix_of(l) ==> l[0] == 'E',
        "created:"@.is_prefix_of(l) ==> l[0] == 'c' && l[1] == 'r',
        "last-update:"@.is_prefix_of(l) ==> l[0] == 'l',
        "contact:"@.is_prefix_of(l) ==> l[0] == 'c' && l[1] == 'o',
{
    reveal_strlit("%% Too many requests");
    reveal_strlit("%% No entries found");
    reveal_strlit("domain:");
    reveal_strlit("status:");
    reveal_strlit("registrar:");
    reveal_strlit("Expiry Date:");
    reveal_strlit("created:");
    reveal_strlit("last-update:");
    reveal_strlit("contact:");
    if "%% Too many requests"@.is_prefix_of(l) {
        lemma_prefix_char("%% Too many requests"@, l, 0);
        lemma_prefix_char("%% Too many requests"@, l, 3);
    }
    if "%% No entries found"@.is_prefix_of(l) {
        lemma_prefix_char("%% No entries found"@, l, 0);
        lemma_prefix_char("%% No entries found"@, l, 3);
    }
    if "domain:"@.is_prefix_of(l) {
        lemma_prefix_char("domain:"@, l, 0);
    }
    if "status:"@.is_prefix_of(l) {
        lemma_prefix_char("status:"@, l, 0);
    }
    if "registrar:"@.is_prefix_of(l) {
        lemma_prefix_char("registrar:"@, l, 0);
    }
    if "Expiry Date:"@.is_prefix_of(l) {
        lemma_prefix_char("Expiry Date:"@, l, 0);
    }
    if "created:"@.is_prefix_of(l) {
        lemma_prefix_char("created:"@, l, 0);
        lemma_prefix_char("created:"@, l, 1);
    }
    if "last-update:"@.is_prefix_of(l) {
        lemma_prefix_char("last-update:"@, l, 0);
    }
    if "contact:"@.is_prefix_of(l) {
        lemma_prefix_char("contact:"@, l, 0);
        lemma_prefix_char("contact:"@, l, 1);
    }
}

/// A line that does not end the reading sets the value of its key, and only that.
proof fn lemma_afnic_step_overlay(f: Fields, l: Seq<char>)
    requires
        !afnic_ends(l),
    ensures
        afnic_step(f, l) == Step::Continue(afnic_overlay(f, seq![l])),
{
    lemma_afnic_key_chars(l);
    lemma_key_of_one_line(l, "domain:"@);
    lemma_key_of_one_line(l, "status:"@);
    lemma_key_of_one_line(l, "registrar:"@);
    lemma_key_of_one_line(l, "created:"@);
    lemma_key_of_one_line(l, "Expiry Date:"@);
    lemma_key_of_one_line(l, "last-update:"@);
}

/// A line that ends the reading decides the outcome as `afnic_end` says.
proof fn lemma_afnic_step_end(f: Fields, l: Seq<char>)
    requires
        afnic_ends(l),
    ensures
        afnic_step(f, l) == Step::Stop(afnic_end(f, l)),
{
    lemma_afnic_key_chars(l);
}

/// Reading lines that do not end the reading only updates the values.
proof fn lemma_afnic_read_through(ls: Seq<Seq<char>>, tail: Seq<Seq<char>>, f: Fields)
    requires
        forall|i: int| 0 <= i < ls.len() ==> !afnic_ends(#[trigger] ls[i]),
    ensures
        afnic_run(ls + tail, f) == afnic_run(tail, afnic_overlay(f, ls)),
    decreases ls.len(),
{
    if ls.len() == 0 {
        assert(ls + tail =~= tail);
        assert(afnic_overlay(f, ls) == f);
    } else {
        let rest = ls.drop_first();
        lemma_afnic_step_overlay(f, ls[0]);
        let g = afnic_overlay(f, seq![ls[0]]);
        assert((ls + tail)[0] == ls[0]);
        assert((ls + tail).drop_first() =~= rest + tail);
        assert forall|i: int| 0 <= i < rest.len() implies !afnic_ends(#[trigger] rest[i]) by {
            assert(rest[i] == ls[i + 1]);
        }
        lemma_afnic_read_through(rest, tail, g);
        lemma_key_of_one_line(ls[0], "domain:"@);
        lemma_key_of_one_line(ls[0], "status:"@);
        lemma_key_of_one_line(ls[0], "registrar:"@);
        lemma_key_of_one_line(ls[0], "created:"@);
        lemma_key_of_one_line(ls[0], "Expiry Date:"@);
        lemma_key_of_one_line(ls[0], "last-update:"@);
        assert(afnic_overlay(g, rest) == afnic_overlay(f, ls));
    }
}

/// When no line of an AFNIC response ends the reading, each value is that of the last line
/// with its key, and the record is made of those values, or the first missing one is named.
pub proof fn lemma_afnic_fields(ls: Seq<Seq<char>>)
    requires
        forall|i: int| 0 <= i < ls.len() ==> !afnic_ends(#[trigger] ls[i]),
    ensures
        afnic_run(ls, no_fields()) == assemble(afnic_overlay(no_fields(), ls), afnic_labels()),
{
    lemma_afnic_read_through(ls, Seq::empty(), no_fields());
    assert(ls + Seq::<Seq<char>>::empty() =~= ls);
}

/// The first line of an AFNIC response that ends the reading decides the outcome: a refusal,
/// an empty answer, an unreadable date, or, for the contact line, the record of the values
/// read before it with that contact as registrant.
pub proof fn lemma_afnic_first_end(ls: Seq<Seq<char>>, k: int)
    requires
        0 <= k < ls.len(),
        forall|i: int| 0 <= i < k ==> !afnic_ends(#[trigger] ls[i]),
        afnic_ends(ls[k]),
    ensures
        afnic_run(ls, no_fields()) == afnic_end(afnic_overlay(no_fields(), ls.take(k)), ls[k]),
{
    let before = ls.take(k);
    let after = ls.skip(k);
    assert forall|i: int| 0 <= i < before.len() implies !afnic_ends(#[trigger] before[i]) by {
        assert(before[i] == ls[i]);
    }
    lemma_afnic_read_through(before, after, no_fields());
    assert(before + after =~= ls);
    assert(after[0] == ls[k]);
    lemma_afnic_step_end(afnic_overlay(no_fields(), before), ls[k]);
}

/// Whether `l` begins with one of the keys that the AFNIC format acts on.
pub open spec fn has_afnic_key(l: Seq<char>) -> bool {
    ||| "%% Too many requests"@.is_prefix_of(l)
    ||| "%% No entries found"@.is_prefix_of(l)
    ||| "domain:"@.is_prefix_of(l)
    ||| "status:"@.is_prefix_of(l)
    ||| "registrar:"@.is_prefix_of(l)
    ||| "Expiry Date:"@.is_prefix_of(l)
    ||| "created:"@.is_prefix_of(l)
    ||| "last-update:"@.is_prefix_of(l)
    ||| "contact:"@.is_prefix_of(l)
}

/// A line of an AFNIC response that begins with none of its keys is skipped: it changes
/// nothing of what the rest of the response gives.
pub proof fn lemma_afnic_skips_other_lines(l: Seq<char>, ls: Seq<Seq<char>>, f: Fields)
    requires
        !has_afnic_key(l),
    ensures
        afnic_run(seq![l] + ls, f) == afnic_run(ls, f),
        !afnic_ends(l),
{
    assert((seq![l] + ls)[0] == l);
    assert((seq![l] + ls).drop_first() =~= ls);
}

/// Only a refusal, an empty answer, the contact line, or a date line whose date does not read
/// ends the reading of an AFNIC response.
pub proof fn lemma_afnic_what_ends(l: Seq<char>)
    ensures
        afnic_ends(l) <==> ("%% Too many requests"@.is_prefix_of(l) || "%% No entries found"@.is_prefix_of(l)
            || "contact:"@.is_prefix_of(l) || (("Expiry Date:"@.is_prefix_of(l) || "created:"@.is_prefix_of(l)
            || "last-update:"@.is_prefix_of(l)) && date_of(l) is None)),
{
    lemma_afnic_key_chars(l);
}

} // verus!
