use vstd::prelude::*;
use crate::afnic::Step;
use crate::text::{
    chars_of, lemma_prefix_char, lemma_prefix_has_colon, lines, lines_of, starts_with, value_of,
};
use crate::whois::{
    assemble, build_record, date_of, extract_datetime_value, extract_string_value, key_date,
    key_value, lemma_key_of_one_line, or_else, outcome_of, CollectedFields, FieldLabels, Fields,
    Labels, ParseOutcome, WhoisData, WhoisError, no_fields,
};

verus! {

/// The names under which the Afilias format reports missing values.
pub open spec fn afilias_labels() -> Labels {
    Labels {
        domain_name: "Domain Name"@,
        status: "Domain Status"@,
        registrar: "Registrar"@,
        registrant: "Registrant Organization"@,
        creation_date: "Creation Date"@,
        expiration_date: "Registry Expiry Date"@,
        last_update_date: "Updated Date"@,
    }
}

/// One line of an Afilias (`.info`) response.
pub open spec fn afilias_step(f: Fields, l: Seq<char>) -> Step {
    if "Domain Name:"@.is_prefix_of(l) {
        Step::Continue(Fields { domain_name: Some(value_of(l)), ..f })
    } else if "Updated Date:"@.is_prefix_of(l) {
        match date_of(l) {
            Some(t) => Step::Continue(Fields { last_update_date: Some(t), ..f }),
            None => Step::Stop(ParseOutcome::BadDate),
        }
    } else if "Creation Date:"@.is_prefix_of(l) {
        match date_of(l) {
            Some(t) => Step::Continue(Fields { creation_date: Some(t), ..f }),
            None => Step::Stop(ParseOutcome::BadDate),
        }
    } else if "Registry Expiry Date:"@.is_prefix_of(l) {
        match date_of(l) {
            Some(t) => Step::Continue(Fields { expiration_date: Some(t), ..f }),
            None => Step::Stop(ParseOutcome::BadDate),
        }
    } else if "Registrar:"@.is_prefix_of(l) {
        Step::Continue(Fields { registrar: Some(value_of(l)), ..f })
    } else if "Domain Status:"@.is_prefix_of(l) {
        Step::Continue(Fields { status: Some(value_of(l)), ..f })
    } else if "Registrant Organization:"@.is_prefix_of(l) {
        Step::Continue(Fields { registrant: Some(value_of(l)), ..f })
    } else {
        Step::Continue(f)
    }
}

/// Reading the lines `ls` of an Afilias response, from the values `f` on.
pub open spec fn afilias_run(ls: Seq<Seq<char>>, f: Fields) -> ParseOutcome
    decreases ls.len(),
{
    if ls.len() == 0 {
        assemble(f, afilias_labels())
    } else {
        match afilias_step(f, ls[0]) {
            Step::Continue(g) => afilias_run(ls.drop_first(), g),
            Step::Stop(o) => o,
        }
    }
}

/// What an Afilias response says.
pub open spec fn afilias_outcome(response: Seq<char>) -> ParseOutcome {
    afilias_run(lines(response), no_fields())
}

/// Reads the response of the Afilias WHOIS server (`.info` domains).
pub fn parse_afilias_response(response: &str) -> (r: Result<Option<WhoisData>, WhoisError>)
    ensures
        outcome_of(r) == afilias_outcome(response@),
{
    let labels = FieldLabels {
        domain_name: "Domain Name",
        status: "Domain Status",
        registrar: "Registrar",
        registrant: "Registrant Organization",
        creation_date: "Creation Date",
        expiration_date: "Registry Expiry Date",
        last_update_date: "Updated Date",
    };
    let ls = lines_of(response);
    let ghost all = lines(response@);
    let mut f = CollectedFields::new();
    let mut i: usize = 0;
    assert(all.skip(0) =~= all);
    while i < ls.len()
        invariant
            labels@ == afilias_labels(),
            all == lines(response@),
            ls@.len() == all.len(),
            forall|k: int| 0 <= k < ls@.len() ==> (#[trigger] ls@[k])@ == all[k],
            i <= ls.len(),
            afilias_outcome(response@) == afilias_run(all.skip(i as int), f@),
        decreases ls.len() - i,
    {
        let line = ls[i];
        let lc = chars_of(line);
        proof {
            assert(all.skip(i as int)[0] == line@);
            assert(all.skip(i as int).drop_first() =~= all.skip(i + 1));
        }
        if starts_with(&lc, "Domain Name:") {
            proof {
                reveal_strlit("Domain Name:");
                lemma_prefix_has_colon("Domain Name:"@, line@);
            }
            f.domain_name = Some(extract_string_value(line));
        } else if starts_with(&lc, "Updated Date:") {
            proof {
                reveal_strlit("Updated Date:");
                lemma_prefix_has_colon("Updated Date:"@, line@);
            }
            match extract_datetime_value(line) {
                Ok(t) => f.last_update_date = Some(t),
                Err(e) => return Err(WhoisError::DateTimeParseError(e)),
            }
        } else if starts_with(&lc, "Creation Date:") {
            proof {
                reveal_strlit("Creation Date:");
                lemma_prefix_has_colon("Creation Date:"@, line@);
            }
            match extract_datetime_value(line) {
                Ok(t) => f.creation_date = Some(t),
                Err(e) => return Err(WhoisError::DateTimeParseError(e)),
            }
        } else if starts_with(&lc, "Registry Expiry Date:") {
            proof {
                reveal_strlit("Registry Expiry Date:");
                lemma_prefix_has_colon("Registry Expiry Date:"@, line@);
            }
            match extract_datetime_value(line) {
                Ok(t) => f.expiration_date = Some(t),
                Err(e) => return Err(WhoisError::DateTimeParseError(e)),
            }
        } else if starts_with(&lc, "Registrar:") {
            proof {
                reveal_strlit("Registrar:");
                lemma_prefix_has_colon("Registrar:"@, line@);
            }
            f.registrar = Some(extract_string_value(line));
        } else if starts_with(&lc, "Domain Status:") {
            proof {
                reveal_strlit("Domain Status:");
                lemma_prefix_has_colon("Domain Status:"@, line@);
            }
            f.status = Some(extract_string_value(line));
        } else if starts_with(&lc, "Registrant Organization:") {
            proof {
                reveal_strlit("Registrant Organization:");
                lemma_prefix_has_colon("Registrant Organization:"@, line@);
            }
            f.registrant = Some(extract_string_value(line));
        }
        i = i + 1;
    }
    proof {
        assert(all.skip(i as int).len() == 0);
    }
    build_record(f, &labels)
}

/// Whether the line `l` ends the reading of an Afilias response: a date line whose date does
/// not read.
pub open spec fn afilias_ends(l: Seq<char>) -> bool {
    afilias_step(no_fields(), l) is Stop
}

/// The values `f` updated by the lines `ls`: each value is that of the last line with its key.
pub open spec fn afilias_overlay(f: Fields, ls: Seq<Seq<char>>) -> Fields {
    Fields {
        domain_name: or_else(key_value(ls, "Domain Name:"@), f.domain_name),
        status: or_else(key_value(ls, "Domain Status:"@), f.status),
        registrar: or_else(key_value(ls, "Registrar:"@), f.registrar),
        registrant: or_else(key_value(ls, "Registrant Organization:"@), f.registrant),
        creation_date: or_else(key_date(ls, "Creation Date:"@), f.creation_date),
        expiration_date: or_else(key_date(ls, "Registry Expiry Date:"@), f.expiration_date),
        last_update_date: or_else(key_date(ls, "Updated Date:"@), f.last_update_date),
    }
}

/// The characters by which the keys of the Afilias format tell a line apart.
proof fn lemma_afilias_key_chars(l: Seq<char>)
    ensures
        "Domain Name:"@.is_prefix_of(l) ==> l[0] == 'D' && l[7] == 'N',
        "Domain Status:"@.is_prefix_of(l) ==> l[0] == 'D' && l[7] == 'S',
        "Updated Date:"@.is_prefix_of(l) ==> l[0] == 'U',
        "Creation Date:"@.is_prefix_of(l) ==> l[0] == 'C',
        "Registry Expiry Date:"@.is_prefix_of(l) ==> l[0] == 'R' && l[7] == 'y',
        "Registrar:"@.is_prefix_of(l) ==> l[0] == 'R' && l[7] == 'a' && l[8] == 'r',
        "Registrant Organization:"@.is_prefix_of(l) ==> l[0] == 'R' && l[7] == 'a' && l[8]
            == 'n',
{
    reveal_strlit("Domain Name:");
    reveal_strlit("Domain Status:");
    reveal_strlit("Updated Date:");
    reveal_strlit("Creation Date:");
    reveal_strlit("Registry Expiry Date:");
    reveal_strlit("Registrar:");
    reveal_strlit("Registrant Organization:");
    if "Domain Name:"@.is_prefix_of(l) {
        lemma_prefix_char("Domain Name:"@, l, 0);
        lemma_prefix_char("Domain Name:"@, l, 7);
    }
    if "Domain Status:"@.is_prefix_of(l) {
        lemma_prefix_char("Domain Status:"@, l, 0);
        lemma_prefix_char("Domain Status:"@, l, 7);
    }
    if "Updated Date:"@.is_prefix_of(l) {
        lemma_prefix_char("Updated Date:"@, l, 0);
    }
    if "Creation Date:"@.is_prefix_of(l) {
        lemma_prefix_char("Creation Date:"@, l, 0);
    }
    if "Registry Expiry Date:"@.is_prefix_of(l) {
        lemma_prefix_char("Registry Expiry Date:"@, l, 0);
        lemma_prefix_char("Registry Expiry Date:"@, l, 7);
    }
    if "Registrar:"@.is_prefix_of(l) {
        lemma_prefix_char("Registrar:"@, l, 0);
        lemma_prefix_char("Registrar:"@, l, 7);
        lemma_prefix_char("Registrar:"@, l, 8);
    }
    if "Registrant Organization:"@.is_prefix_of(l) {
        lemma_prefix_char("Registrant Organization:"@, l, 0);
        lemma_prefix_char("Registrant Organization:"@, l, 7);
        lemma_prefix_char("Registrant Organization:"@, l, 8);
    }
}

/// A line that does not end the reading sets the value of its key, and only that.
proof fn lemma_afilias_step_overlay(f: Fields, l: Seq<char>)
    requires
        !afilias_ends(l),
    ensures
        afilias_step(f, l) == Step::Continue(afilias_overlay(f, seq![l])),
{
    lemma_afilias_key_chars(l);
    lemma_key_of_one_line(l, "Domain Name:"@);
    lemma_key_of_one_line(l, "Domain Status:"@);
    lemma_key_of_one_line(l, "Registrar:"@);
    lemma_key_of_one_line(l, "Registrant Organization:"@);
    lemma_key_of_one_line(l, "Creation Date:"@);
    lemma_key_of_one_line(l, "Registry Expiry Date:"@);
    lemma_key_of_one_line(l, "Updated Date:"@);
}

/// Reading lines that do not end the reading only updates the values.
proof fn lemma_afilias_read_through(ls: Seq<Seq<char>>, tail: Seq<Seq<char>>, f: Fields)
    requires
        forall|i: int| 0 <= i < ls.len() ==> !afilias_ends(#[trigger] ls[i]),
    ensures
        afilias_run(ls + tail, f) == afilias_run(tail, afilias_overlay(f, ls)),
    decreases ls.len(),
{
    if ls.len() == 0 {
        assert(ls + tail =~= tail);
        assert(afilias_overlay(f, ls) == f);
    } else {
        let rest = ls.drop_first();
        lemma_afilias_step_overlay(f, ls[0]);
        let g = afilias_overlay(f, seq![ls[0]]);
        assert((ls + tail)[0] == ls[0]);
        assert((ls + tail).drop_first() =~= rest + tail);
        assert forall|i: int| 0 <= i < rest.len() implies !afilias_ends(#[trigger] rest[i]) by {
            assert(rest[i] == ls[i + 1]);
        }
        lemma_afilias_read_through(rest, tail, g);
        lemma_key_of_one_line(ls[0], "Domain Name:"@);
        lemma_key_of_one_line(ls[0], "Domain Status:"@);
        lemma_key_of_one_line(ls[0], "Registrar:"@);
        lemma_key_of_one_line(ls[0], "Registrant Organization:"@);
        lemma_key_of_one_line(ls[0], "Creation Date:"@);
        lemma_key_of_one_line(ls[0], "Registry Expiry Date:"@);
        lemma_key_of_one_line(ls[0], "Updated Date:"@);
        assert(afilias_overlay(g, rest) == afilias_overlay(f, ls));
    }
}

/// When every date of an Afilias response reads, each value is that of the last line with its
/// key, and the record is made of those values, or the first missing one is named.
pub proof fn lemma_afilias_fields(ls: Seq<Seq<char>>)
    requires
        forall|i: int| 0 <= i < ls.len() ==> !afilias_ends(#[trigger] ls[i]),
    ensures
        afilias_run(ls, no_fields()) == assemble(afilias_overlay(no_fields(), ls), afilias_labels()),
{
    lemma_afilias_read_through(ls, Seq::empty(), no_fields());
    assert(ls + Seq::<Seq<char>>::empty() =~= ls);
}

/// The first line of an Afilias response whose date does not read decides the outcome: the
/// date is reported, whatever follows.
pub proof fn lemma_afilias_first_end(ls: Seq<Seq<char>>, k: int)
    requires
        0 <= k < ls.len(),
        forall|i: int| 0 <= i < k ==> !afilias_ends(#[trigger] ls[i]),
        afilias_ends(ls[k]),
    ensures
        afilias_run(ls, no_fields()) == ParseOutcome::BadDate,
{
    let before = ls.take(k);
    let after = ls.skip(k);
    assert forall|i: int| 0 <= i < before.len() implies !afilias_ends(#[trigger] before[i]) by {
        assert(before[i] == ls[i]);
    }
    lemma_afilias_read_through(before, after, no_fields());
    assert(before + after =~= ls);
    assert(after[0] == ls[k]);
    lemma_afilias_key_chars(ls[k]);
}

/// Whether `l` begins with one of the keys that the Afilias format reads.
pub open spec fn has_afilias_key(l: Seq<char>) -> bool {
    ||| "Domain Name:"@.is_prefix_of(l)
    ||| "Updated Date:"@.is_prefix_of(l)
    ||| "Creation Date:"@.is_prefix_of(l)
    ||| "Registry Expiry Date:"@.is_prefix_of(l)
    ||| "Registrar:"@.is_prefix_of(l)
    ||| "Domain Status:"@.is_prefix_of(l)
    ||| "Registrant Organization:"@.is_prefix_of(l)
}

/// A line of an Afilias response that begins with none of its keys is skipped: it changes
/// nothing of what the rest of the response gives.
pub proof fn lemma_afilias_skips_other_lines(l: Seq<char>, ls: Seq<Seq<char>>, f: Fields)
    requires
        !has_afilias_key(l),
    ensures
        afilias_run(seq![l] + ls, f) == afilias_run(ls, f),
        !afilias_ends(l),
{
    assert((seq![l] + ls)[0] == l);
    assert((seq![l] + ls).drop_first() =~= ls);
}

/// Only a date line whose date does not read ends the reading of an Afilias response.
pub proof fn lemma_afilias_what_ends(l: Seq<char>)
    ensures
        afilias_ends(l) <==> (("Updated Date:"@.is_prefix_of(l) || "Creation Date:"@.is_prefix_of(l)
            || "Registry Expiry Date:"@.is_prefix_of(l)) && date_of(l) is None),
{
    lemma_afilias_key_chars(l);
}

} // verus!
