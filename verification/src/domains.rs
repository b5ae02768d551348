use vstd::prelude::*;
use vstd::utf8::is_ascii_chars;
use crate::text::{
    has_no_space, is_space, lemma_replace_space_runs_chars, lemma_replace_space_runs_keeps_out,
    lemma_replace_space_runs_no_op, lemma_replace_space_runs_no_space,
    lemma_replace_space_runs_shows_rep, lemma_without_dashes_chars, lemma_without_dashes_has_none,
    lemma_without_dashes_no_op, remove_dash_chars, replace_space_runs, without_dashes,
    lemma_dash_runs_then_no_dashes_is_no_dashes_then_no_spaces, lemma_replace_space_runs_by_nothing,
    lemma_replace_space_runs_keeps, lemma_without_dashes_concat, lemma_without_dashes_keeps,
    lemma_without_spaces_concat, lemma_without_spaces_keeps, without_spaces,
    lemma_no_dashes_no_spaces_is_filter, plain_char,
};

verus! {

#[verifier::external_type_specification]
#[verifier::external_body]
pub struct ExRegexError(regex::Error);

/// The ending of every generated domain name.
pub const DN_SUFFIX: &'static str = "2022.fr";

/// What `unidecode::unidecode` makes of `s`.
pub uninterp spec fn transliterated(s: Seq<char>) -> Seq<char>;

/// `unidecode::unidecode`: the ASCII transliteration of `s`. Claimed, as the crate documents
/// it: the result is ASCII, and every ASCII character is mapped to itself, so that ASCII
/// input comes back unchanged. As its source shows, each character is transliterated on its
/// own and the results are joined in order, so an ASCII character of the input stands in the
/// result, unchanged, between the transliterations of what precedes and what follows it.
/// Which transliteration other characters get is left to the name `transliterated`.
#[verifier::external_body]
fn unidecode(s: &str) -> (r: String)
    ensures
        r@ == transliterated(s@),
        is_ascii_chars(r@),
        is_ascii_chars(s@) ==> r@ == s@,
        forall|i: int|
            0 <= i < s@.len() && '\0' <= #[trigger] s@[i] <= '\u{7f}' ==> r@ == transliterated(
                s@.take(i),
            ) + seq![s@[i]] + transliterated(s@.skip(i + 1)),
{
    unidecode::unidecode(s)
}

/// An ASCII upper-case letter made lower case; any other character unchanged.
pub open spec fn ascii_lower(c: char) -> char {
    if 'A' <= c && c <= 'Z' {
        ((c as u32) + 32) as char
    } else {
        c
    }
}

/// What `str::to_lowercase` makes of `s`.
pub uninterp spec fn lowercased(s: Seq<char>) -> Seq<char>;

/// `str::to_lowercase` (std): `s` in lower case, by the Unicode `Lowercase` mapping. Claimed:
/// on ASCII input each letter `A`-`Z` becomes its lower-case letter and every other character
/// stays. The mapping of other characters is left to the name `lowercased`.
#[verifier::external_body]
fn to_lowercase(s: &str) -> (r: String)
    ensures
        r@ == lowercased(s@),
        is_ascii_chars(s@) ==> r@ == s@.map_values(|c: char| ascii_lower(c)),
{
    s.to_lowercase()
}

/// `regex::Regex::new(pattern)` and then `Regex::replace_all(haystack, rep)`, from the regex
/// crate. Only the pattern `\s+` is accepted, with a replacement free of `$`, so that the
/// replacement is taken literally. Claimed, as the crate documents it: the pattern compiles,
/// and every leftmost-first match, which is a maximal run of Unicode `White_Space`, is
/// replaced by `rep`.
#[verifier::external_body]
fn regex_replace_all(pattern: &str, haystack: &str, rep: &str) -> (r: Result<
    String,
    regex::Error,
>)
    requires
        pattern@ == "\\s+"@,
        !rep@.contains('$'),
    ensures
        match r {
            Ok(out) => out@ == replace_space_runs(haystack@, rep@),
            Err(_) => false,
        },
{
    match regex::Regex::new(pattern) {
        Ok(re) => Ok(re.replace_all(haystack, rep).into_owned()),
        Err(e) => Err(e),
    }
}

/// A name made comparable: transliterated to ASCII, then lower case.
pub open spec fn normalized(s: Seq<char>) -> Seq<char> {
    lowercased(transliterated(s))
}

/// A character that is ASCII and no upper-case letter.
pub open spec fn is_lower_ascii(c: char) -> bool {
    '\0' <= c <= '\u{7f}' && !('A' <= c <= 'Z')
}

/// Text made of ASCII characters, none of them an upper-case letter.
pub open spec fn all_lower_ascii(s: Seq<char>) -> bool {
    forall|i: int| 0 <= i < s.len() ==> is_lower_ascii(#[trigger] s[i])
}

/// Transliterates `s` to ASCII and puts it in lower case. The result is ASCII with no
/// upper-case letter, and text already so is returned unchanged: normalizing twice is
/// normalizing once.
pub fn normalize_str(s: &str) -> (r: String)
    ensures
        r@ == normalized(s@),
        is_ascii_chars(r@),
        all_lower_ascii(r@),
        all_lower_ascii(s@) ==> r@ == s@,
        is_ascii_chars(s@) ==> r@ == s@.map_values(|c: char| ascii_lower(c)),
        forall|i: int|
            0 <= i < s@.len() && '\0' <= #[trigger] s@[i] <= '\u{7f}' ==> r@ == transliterated(
                s@.take(i),
            ).map_values(|c: char| ascii_lower(c)) + seq![ascii_lower(s@[i])] + transliterated(
                s@.skip(i + 1),
            ).map_values(|c: char| ascii_lower(c)),
{
    let t = unidecode(s);
    let r = to_lowercase(t.as_str());
    proof {
        assert forall|i: int|
            0 <= i < s@.len() && '\0' <= #[trigger] s@[i] <= '\u{7f}' implies r@ == transliterated(
                s@.take(i),
            ).map_values(|c: char| ascii_lower(c)) + seq![ascii_lower(s@[i])] + transliterated(
                s@.skip(i + 1),
            ).map_values(|c: char| ascii_lower(c)) by {
            let a = transliterated(s@.take(i));
            let b = transliterated(s@.skip(i + 1));
            assert(t@ == a + seq![s@[i]] + b);
            assert(r@ =~= a.map_values(|c: char| ascii_lower(c)) + seq![ascii_lower(s@[i])]
                + b.map_values(|c: char| ascii_lower(c))) by {
                assert forall|k: int| 0 <= k < r@.len() implies r@[k] == (a.map_values(
                    |c: char| ascii_lower(c),
                ) + seq![ascii_lower(s@[i])] + b.map_values(|c: char| ascii_lower(c)))[k] by {
                    assert(r@[k] == ascii_lower(t@[k]));
                    if k < a.len() {
                        assert(t@[k] == a[k]);
                    } else if k == a.len() {
                        assert(t@[k] == s@[i]);
                    } else {
                        assert(t@[k] == b[k - a.len() - 1]);
                    }
                }
            }
        }
        assert forall|i: int| 0 <= i < r@.len() implies is_lower_ascii(#[trigger] r@[i]) by {
            let c = t@[i];
            assert(r@[i] == ascii_lower(c));
            assert('\0' <= c <= '\u{7f}');
        }
        if all_lower_ascii(s@) {
            assert(is_ascii_chars(s@)) by {
                assert forall|i: int| 0 <= i < s@.len() implies '\0' <= #[trigger] s@[i] <= '\u{7f}' by {
                    assert(is_lower_ascii(s@[i]));
                }
            }
            assert forall|i: int| 0 <= i < r@.len() implies r@[i] == s@[i] by {
                assert(is_lower_ascii(t@[i]));
            }
            assert(r@ =~= s@);
        }
    }
    r
}

fn replace_spaces(s: &str, rep: &str) -> (r: String)
    requires
        !rep@.contains('$'),
    ensures
        r@ == replace_space_runs(s@, rep@),
{
    match regex_replace_all("\\s+", s, rep) {
        Ok(r) => r,
        Err(_) => {
            assert(false);
            String::new()
        },
    }
}

/// `s` with all its white space removed.
pub fn remove_spaces(s: &str) -> (r: String)
    ensures
        r@ == replace_space_runs(s@, Seq::empty()),
        has_no_space(r@),
        has_no_space(s@) ==> r@ == s@,
{
    proof {
        reveal_strlit("");
        assert(""@ =~= Seq::<char>::empty());
        lemma_replace_space_runs_no_space(s@, ""@);
        if has_no_space(s@) {
            lemma_replace_space_runs_no_op(s@, ""@);
        }
    }
    replace_spaces(s, "")
}

/// `s` with each run of white space replaced by one `-`.
pub fn replace_spaces_with_dashes(s: &str) -> (r: String)
    ensures
        r@ == replace_space_runs(s@, seq!['-']),
        has_no_space(r@),
        has_no_space(s@) ==> r@ == s@,
{
    proof {
        reveal_strlit("-");
        assert("-"@ =~= seq!['-']);
        lemma_replace_space_runs_no_space(s@, "-"@);
        if has_no_space(s@) {
            lemma_replace_space_runs_no_op(s@, "-"@);
        }
    }
    replace_spaces(s, "-")
}

/// `s` with every `-` removed.
pub fn remove_dashes(s: &str) -> (r: String)
    ensures
        r@ == without_dashes(s@),
        !r@.contains('-'),
        !s@.contains('-') ==> r@ == s@,
{
    proof {
        lemma_without_dashes_has_none(s@);
        if !s@.contains('-') {
            lemma_without_dashes_no_op(s@);
        }
    }
    remove_dash_chars(s)
}

/// A set of domain names, each held once.
pub struct DomainNameSet {
    names: Vec<String>,
}

impl DomainNameSet {
    /// The names, in the order they were added.
    pub closed spec fn names_seq(self) -> Seq<Seq<char>> {
        self.names@.map_values(|s: String| s@)
    }

    #[verifier::type_invariant]
    spec fn held_once(self) -> bool {
        self.names_seq().no_duplicates()
    }

    /// An empty set.
    pub fn new() -> (r: DomainNameSet)
        ensures
            r@ == Set::<Seq<char>>::empty(),
    {
        let r = DomainNameSet { names: Vec::new() };
        assert(r.names_seq().to_set() =~= Set::<Seq<char>>::empty());
        r
    }

    /// The number of names.
    pub fn len(&self) -> (r: usize)
        ensures
            r == self@.len(),
    {
        proof {
            use_type_invariant(self);
            self.names_seq().unique_seq_to_set();
        }
        self.names.len()
    }

    /// Whether `name` is in the set.
    pub fn contains(&self, name: &str) -> (r: bool)
        ensures
            r == self@.contains(name@),
    {
        let key = String::from_str(name);
        let mut i: usize = 0;
        while i < self.names.len()
            invariant
                key@ == name@,
                i <= self.names.len(),
                forall|j: int| 0 <= j < i ==> self.names@[j]@ != name@,
            decreases self.names.len() - i,
        {
            if self.names[i] == key {
                proof {
                    assert(self.names_seq()[i as int] == name@);
                }
                return true;
            }
            i = i + 1;
        }
        proof {
            if self.names_seq().to_set().contains(name@) {
                let j = choose|j: int| 0 <= j < self.names_seq().len() && self.names_seq()[j] == name@;
                assert(self.names@[j]@ == name@);
            }
        }
        false
    }

    /// Adds `name`; returns whether it was not there yet.
    pub fn insert(&mut self, name: String) -> (r: bool)
        ensures
            final(self)@ == old(self)@.insert(name@),
            r == !old(self)@.contains(name@),
    {
        proof {
            use_type_invariant(&*self);
        }
        if self.contains(name.as_str()) {
            proof {
                assert(self@.insert(name@) =~= self@);
            }
            return false;
        }
        let ghost before = self.names_seq();
        let mut names = Vec::new();
        std::mem::swap(&mut names, &mut self.names);
        names.push(name);
        proof {
            assert(names@.map_values(|s: String| s@) =~= before.push(name@));
            before.lemma_push_to_set_commute(name@);
            assert(before.push(name@).no_duplicates()) by {
                assert(!before.contains(name@));
            }
        }
        *self = DomainNameSet { names };
        true
    }

    /// The names, each once.
    pub fn into_vec(self) -> (r: Vec<String>)
        ensures
            r@.map_values(|s: String| s@).no_duplicates(),
            r@.map_values(|s: String| s@).to_set() == self@,
    {
        proof {
            use_type_invariant(&self);
        }
        self.names
    }
}

impl View for DomainNameSet {
    type V = Set<Seq<char>>;

    closed spec fn view(&self) -> Set<Seq<char>> {
        self.names_seq().to_set()
    }
}

/// The four domain names that a candidate's name suggests: the last name, and the first name
/// followed by the last name, each once with its dashes and white space removed and once with
/// each run of white space made a dash; all lower-case ASCII, ending in `2022.fr`.
pub open spec fn candidate_names(first_name: Seq<char>, last_name: Seq<char>) -> Set<Seq<char>> {
    let last = normalized(last_name);
    let full = normalized(first_name) + seq![' '] + last;
    set![
        replace_space_runs(without_dashes(last), Seq::empty()) + DN_SUFFIX@,
        replace_space_runs(last, seq!['-']) + DN_SUFFIX@,
        replace_space_runs(without_dashes(full), Seq::empty()) + DN_SUFFIX@,
        replace_space_runs(full, seq!['-']) + DN_SUFFIX@,
    ]
}

/// The domain names that a candidate called `first_name last_name` may have registered.
pub fn generate_domain_names(first_name: &str, last_name: &str) -> (r: DomainNameSet)
    ensures
        r@ == candidate_names(first_name@, last_name@),
        2 <= r@.len() <= 4,
        (exists|i: int|
            0 <= i < normalized(first_name@).len() && !is_space(
                #[trigger] normalized(first_name@)[i],
            ) && normalized(first_name@)[i] != '-') && (exists|j: int|
            0 <= j < normalized(last_name@).len() && (is_space(
                #[trigger] normalized(last_name@)[j],
            ) || normalized(last_name@)[j] == '-')) ==> r@.len() == 4,
        forall|n: Seq<char>|
            #[trigger] r@.contains(n) ==> DN_SUFFIX@.is_suffix_of(n) && all_lower_ascii(n)
                && has_no_space(n),
{
    let ghost (given_first, given_last) = (first_name@, last_name@);
    let first_name = normalize_str(first_name);
    let last_name = normalize_str(last_name);
    let mut full_name = String::from_str(first_name.as_str());
    full_name.append(" ");
    full_name.append(last_name.as_str());
    proof {
        reveal_strlit(" ");
        assert(full_name@ =~= first_name@ + seq![' '] + last_name@);
    }
    let mut h = DomainNameSet::new();
    // Last name only
    let mut n = remove_spaces(remove_dashes(last_name.as_str()).as_str());
    n.append(DN_SUFFIX);
    h.insert(n);
    let mut n = replace_spaces_with_dashes(last_name.as_str());
    n.append(DN_SUFFIX);
    h.insert(n);
    // Full name
    let mut n = remove_spaces(remove_dashes(full_name.as_str()).as_str());
    n.append(DN_SUFFIX);
    h.insert(n);
    let mut n = replace_spaces_with_dashes(full_name.as_str());
    n.append(DN_SUFFIX);
    h.insert(n);
    proof {
        assert(h@ =~= candidate_names(given_first, given_last));
        let l = last_name@;
        let full = full_name@;
        assert(all_lower_ascii(seq![' ']));
        assert(all_lower_ascii(full)) by {
            assert forall|i: int| 0 <= i < full.len() implies is_lower_ascii(#[trigger] full[i]) by {
                if i < first_name@.len() {
                    assert(full[i] == first_name@[i]);
                } else if i == first_name@.len() {
                    assert(full[i] == ' ');
                } else {
                    assert(full[i] == l[i - first_name@.len() - 1]);
                }
            }
        }
        lemma_without_dashes_lower(l);
        lemma_without_dashes_lower(full);
        assert(all_lower_ascii(seq!['-']));
        assert(has_no_space(seq!['-']));
        assert(all_lower_ascii(Seq::<char>::empty()));
        assert(has_no_space(Seq::<char>::empty()));
        let a = replace_space_runs(without_dashes(l), Seq::empty()) + DN_SUFFIX@;
        let b = replace_space_runs(l, seq!['-']) + DN_SUFFIX@;
        let c = replace_space_runs(without_dashes(full), Seq::empty()) + DN_SUFFIX@;
        let d = replace_space_runs(full, seq!['-']) + DN_SUFFIX@;
        lemma_name_shape(without_dashes(l), Seq::empty());
        lemma_name_shape(l, seq!['-']);
        lemma_name_shape(without_dashes(full), Seq::empty());
        lemma_name_shape(full, seq!['-']);
        // The last name without dashes holds no dash; the dashed full name holds one.
        reveal_strlit("2022.fr");
        lemma_without_dashes_has_none(l);
        lemma_replace_space_runs_keeps_out(without_dashes(l), Seq::empty(), '-');
        assert(!a.contains('-')) by {
            let stem = replace_space_runs(without_dashes(l), Seq::empty());
            assert forall|i: int| 0 <= i < a.len() implies a[i] != '-' by {
                if i < stem.len() {
                    assert(a[i] == stem[i]);
                } else {
                    assert(a[i] == DN_SUFFIX@[i - stem.len()]);
                }
            }
        }
        assert(is_space(full[first_name@.len() as int]));
        lemma_replace_space_runs_shows_rep(full, seq!['-'], first_name@.len() as int);
        assert(d.contains('-')) by {
            let stem = replace_space_runs(full, seq!['-']);
            let j = choose|j: int| 0 <= j < stem.len() && stem[j] == '-';
            assert(d[j] == '-');
        }
        assert(a != d);
        let two = Set::<Seq<char>>::empty().insert(a).insert(d);
        assert(two.subset_of(h@));
        vstd::set_lib::lemma_len_subset(two, h@);
        assert(h@ == Set::<Seq<char>>::empty().insert(a).insert(b).insert(c).insert(d));
        if (exists|i: int|
            0 <= i < first_name@.len() && !is_space(#[trigger] first_name@[i]) && first_name@[i]
                != '-') && (exists|j: int|
            0 <= j < l.len() && (is_space(#[trigger] l[j]) || l[j] == '-')) {
            let i = choose|i: int|
                0 <= i < first_name@.len() && !is_space(#[trigger] first_name@[i])
                    && first_name@[i] != '-';
            let j = choose|j: int| 0 <= j < l.len() && (is_space(#[trigger] l[j]) || l[j] == '-');
            lemma_four_distinct(first_name@, l, i, j);
        }
    }
    h
}

/// The characters of lower-case ASCII text stay so once its dashes are removed.
proof fn lemma_without_dashes_lower(s: Seq<char>)
    requires
        all_lower_ascii(s),
    ensures
        all_lower_ascii(without_dashes(s)),
{
    lemma_without_dashes_chars(s);
    assert forall|i: int| 0 <= i < without_dashes(s).len() implies is_lower_ascii(
        #[trigger] without_dashes(s)[i],
    ) by {
        let j = choose|j: int| 0 <= j < s.len() && s[j] == without_dashes(s)[i];
        assert(is_lower_ascii(s[j]));
    }
}

/// A name made of lower-case ASCII text with its white space replaced, followed by the
/// suffix, is lower-case ASCII, without white space, and ends with the suffix.
proof fn lemma_name_shape(base: Seq<char>, rep: Seq<char>)
    requires
        all_lower_ascii(base),
        all_lower_ascii(rep),
        has_no_space(rep),
    ensures
        all_lower_ascii(replace_space_runs(base, rep) + DN_SUFFIX@),
        has_no_space(replace_space_runs(base, rep) + DN_SUFFIX@),
        DN_SUFFIX@.is_suffix_of(replace_space_runs(base, rep) + DN_SUFFIX@),
{
    reveal_strlit("2022.fr");
    let stem = replace_space_runs(base, rep);
    let n = stem + DN_SUFFIX@;
    lemma_replace_space_runs_chars(base, rep);
    lemma_replace_space_runs_no_space(base, rep);
    assert forall|i: int| 0 <= i < n.len() implies is_lower_ascii(#[trigger] n[i]) && !is_space(
        n[i],
    ) by {
        if i < stem.len() {
            assert(n[i] == stem[i]);
            if base.contains(stem[i]) {
                let j = choose|j: int| 0 <= j < base.len() && base[j] == stem[i];
                assert(is_lower_ascii(base[j]));
            } else {
                let j = choose|j: int| 0 <= j < rep.len() && rep[j] == stem[i];
                assert(is_lower_ascii(rep[j]));
            }
        } else {
            assert(n[i] == DN_SUFFIX@[i - stem.len()]);
        }
    }
    assert(n.subrange(n.len() - DN_SUFFIX@.len(), n.len() as int) =~= DN_SUFFIX@);
}

/// Every generated domain name ends in `2022.fr` and holds no white space.
pub proof fn lemma_generated_names_shape(first_name: Seq<char>, last_name: Seq<char>, n: Seq<char>)
    requires
        candidate_names(first_name, last_name).contains(n),
    ensures
        DN_SUFFIX@.is_suffix_of(n),
        has_no_space(n),
{
    reveal_strlit("2022.fr");
    let last = normalized(last_name);
    let full = normalized(first_name) + seq![' '] + last;
    assert(has_no_space(seq!['-']));
    assert(has_no_space(Seq::<char>::empty()));
    lemma_replace_space_runs_no_space(without_dashes(last), Seq::empty());
    lemma_replace_space_runs_no_space(last, seq!['-']);
    lemma_replace_space_runs_no_space(without_dashes(full), Seq::empty());
    lemma_replace_space_runs_no_space(full, seq!['-']);
    let stem = n.subrange(0, n.len() - 7);
    assert(n =~= stem + DN_SUFFIX@);
    assert(DN_SUFFIX@ =~= n.subrange(n.len() - 7, n.len() as int));
    assert forall|i: int| 0 <= i < n.len() implies !crate::text::is_space(#[trigger] n[i]) by {
        if i >= stem.len() {
            assert(n[i] == DN_SUFFIX@[i - stem.len()]);
        } else {
            assert(n[i] == stem[i]);
        }
    }
}

/// The names that have their dashes removed are free of dashes too.
pub proof fn lemma_dashless_names(first_name: Seq<char>, last_name: Seq<char>)
    ensures
        !replace_space_runs(without_dashes(normalized(last_name)), Seq::empty()).contains('-'),
        !replace_space_runs(
            without_dashes(normalized(first_name) + seq![' '] + normalized(last_name)),
            Seq::empty(),
        ).contains('-'),
{
    let last = normalized(last_name);
    let full = normalized(first_name) + seq![' '] + last;
    lemma_without_dashes_has_none(last);
    lemma_without_dashes_has_none(full);
    lemma_replace_space_runs_keeps_out(without_dashes(last), Seq::empty(), '-');
    lemma_replace_space_runs_keeps_out(without_dashes(full), Seq::empty(), '-');
}

/// A domain name listed for a candidate.
pub struct DomainName {
    pub name: String,
}

impl DomainName {
    pub fn new(name: String) -> (r: DomainName)
        ensures
            r.name == name,
    {
        DomainName { name }
    }
}

/// The names that a list of domain names holds.
pub open spec fn listed_names(dns: Seq<DomainName>) -> Set<Seq<char>> {
    Set::new(|n: Seq<char>| exists|i: int| 0 <= i < dns.len() && dns[i].name@ == n)
}

/// A candidate for whom domain names are generated.
pub struct PotentialCandidateDocument {
    pub id: [u8; 12],
    pub first_name: String,
    pub last_name: String,
    pub domain_names: Vec<DomainName>,
}

impl PotentialCandidateDocument {
    /// Whether `name` is one of the candidate's domain names.
    pub fn has_domain_name(&self, name: &str) -> (r: bool)
        ensures
            r == listed_names(self.domain_names@).contains(name@),
    {
        let key = String::from_str(name);
        let mut i: usize = 0;
        while i < self.domain_names.len()
            invariant
                key@ == name@,
                i <= self.domain_names.len(),
                forall|j: int| 0 <= j < i ==> self.domain_names@[j].name@ != name@,
            decreases self.domain_names.len() - i,
        {
            if self.domain_names[i].name == key {
                proof {
                    assert(self.domain_names@[i as int].name@ == name@);
                }
                return true;
            }
            i = i + 1;
        }
        false
    }

    /// The generated domain names that the candidate does not have yet, each once.
    pub fn domain_names_to_add(&self) -> (r: Vec<DomainName>)
        ensures
            r@.map_values(|d: DomainName| d.name@).no_duplicates(),
            listed_names(r@) == candidate_names(self.first_name@, self.last_name@).difference(
                listed_names(self.domain_names@),
            ),
    {
        let generated = generate_domain_names(self.first_name.as_str(), self.last_name.as_str());
        let ghost gen_set = generated@;
        let generated = generated.into_vec();
        let ghost gen = generated@.map_values(|s: String| s@);
        let ghost existing = listed_names(self.domain_names@);
        let mut r: Vec<DomainName> = Vec::new();
        let mut i: usize = 0;
        assert(r@.map_values(|d: DomainName| d.name@) =~= fresh_prefix(gen, existing, 0));
        while i < generated.len()
            invariant
                gen == generated@.map_values(|s: String| s@),
                existing == listed_names(self.domain_names@),
                i <= generated.len(),
                r@.map_values(|d: DomainName| d.name@) == fresh_prefix(gen, existing, i as int),
            decreases generated.len() - i,
        {
            let dn = generated[i].clone();
            let ghost before = r@;
            proof {
                assert(dn@ == gen[i as int]);
            }
            if !self.has_domain_name(dn.as_str()) {
                r.push(DomainName::new(dn));
                proof {
                    assert(r@.map_values(|d: DomainName| d.name@) =~= before.map_values(
                        |d: DomainName| d.name@,
                    ).push(gen[i as int]));
                }
            }
            i = i + 1;
        }
        proof {
            lemma_fresh_prefix(gen, existing, gen.len() as int);
            let names = r@.map_values(|d: DomainName| d.name@);
            assert(listed_names(r@) =~= names.to_set()) by {
                assert forall|n: Seq<char>| listed_names(r@).contains(n) implies names.to_set().contains(n) by {
                    let j = choose|j: int| 0 <= j < r@.len() && r@[j].name@ == n;
                    assert(names[j] == n);
                }
                assert forall|n: Seq<char>| names.to_set().contains(n) implies listed_names(r@).contains(n) by {
                    let j = choose|j: int| 0 <= j < names.len() && names[j] == n;
                    assert(r@[j].name@ == n);
                }
            }
            assert(names.to_set() =~= gen.to_set().difference(existing)) by {
                assert forall|n: Seq<char>| names.to_set().contains(n) <==> gen.to_set().difference(existing).contains(n) by {
                    assert(names.to_set().contains(n) <==> names.contains(n));
                    assert(gen.to_set().contains(n) <==> gen.contains(n));
                    assert(names == fresh_prefix(gen, existing, gen.len() as int));
                    assert(names.contains(n) <==> (exists|k: int| 0 <= k < gen.len() && gen[k] == n)
                        && !existing.contains(n));
                }
            }
        }
        r
    }
}

/// The names among the first `i` of `gen` that are not in `existing`, in order.
pub open spec fn fresh_prefix(gen: Seq<Seq<char>>, existing: Set<Seq<char>>, i: int) -> Seq<Seq<char>>
    decreases i,
{
    if i <= 0 {
        Seq::empty()
    } else if existing.contains(gen[i - 1]) {
        fresh_prefix(gen, existing, i - 1)
    } else {
        fresh_prefix(gen, existing, i - 1).push(gen[i - 1])
    }
}

proof fn lemma_fresh_prefix(gen: Seq<Seq<char>>, existing: Set<Seq<char>>, i: int)
    requires
        0 <= i <= gen.len(),
        gen.no_duplicates(),
    ensures
        fresh_prefix(gen, existing, i).no_duplicates(),
        forall|n: Seq<char>|
            fresh_prefix(gen, existing, i).contains(n) <==> (exists|k: int|
                0 <= k < i && gen[k] == n) && !existing.contains(n),
    decreases i,
{
    if i > 0 {
        lemma_fresh_prefix(gen, existing, i - 1);
        let p = fresh_prefix(gen, existing, i - 1);
        let x = gen[i - 1];
        assert forall|n: Seq<char>|
            fresh_prefix(gen, existing, i).contains(n) <==> (exists|k: int|
                0 <= k < i && gen[k] == n) && !existing.contains(n) by {
            if (exists|k: int| 0 <= k < i && gen[k] == n) && !existing.contains(n) {
                let k = choose|k: int| 0 <= k < i && gen[k] == n;
                if k < i - 1 {
                    assert(p.contains(n));
                    if !existing.contains(x) {
                        let j = choose|j: int| 0 <= j < p.len() && p[j] == n;
                        assert(p.push(x)[j] == n);
                    }
                } else {
                    assert(p.push(x)[p.len() as int] == n);
                }
            }
            if fresh_prefix(gen, existing, i).contains(n) && !existing.contains(x) {
                let j = choose|j: int| 0 <= j < p.push(x).len() && p.push(x)[j] == n;
                if j < p.len() {
                    assert(p[j] == n);
                    assert(p.contains(n));
                }
            }
        }
        if !existing.contains(x) {
            assert(!p.contains(x)) by {
                if p.contains(x) {
                    let k = choose|k: int| 0 <= k < i - 1 && gen[k] == x;
                    assert(gen[k] == gen[i - 1]);
                }
            }
            let q = p.push(x);
            assert forall|a: int, b: int| 0 <= a < q.len() && 0 <= b < q.len() && a != b implies q[a]
                != q[b] by {
                if a < p.len() && b < p.len() {
                    assert(q[a] == p[a] && q[b] == p[b]);
                } else if a < p.len() {
                    assert(q[a] == p[a] && p.contains(p[a]));
                } else if b < p.len() {
                    assert(q[b] == p[b] && p.contains(p[b]));
                }
            }
        }
    }
}

/// Adding the names that `domain_names_to_add` returns leaves the candidate with every
/// generated name, and adds none that was listed already.
pub proof fn lemma_additions_complete(c: PotentialCandidateDocument, added: Seq<DomainName>)
    requires
        listed_names(added) == candidate_names(c.first_name@, c.last_name@).difference(
            listed_names(c.domain_names@),
        ),
    ensures
        listed_names(c.domain_names@ + added) == listed_names(c.domain_names@).union(
            candidate_names(c.first_name@, c.last_name@),
        ),
        listed_names(added).disjoint(listed_names(c.domain_names@)),
{
    let old_names = c.domain_names@;
    let all = old_names + added;
    assert forall|n: Seq<char>| listed_names(all).contains(n) <==> listed_names(old_names).contains(n)
        || listed_names(added).contains(n) by {
        if listed_names(all).contains(n) {
            let i = choose|i: int| 0 <= i < all.len() && all[i].name@ == n;
            if i < old_names.len() {
                assert(all[i] == old_names[i]);
            } else {
                assert(all[i] == added[i - old_names.len()]);
            }
        }
        if listed_names(old_names).contains(n) {
            let i = choose|i: int| 0 <= i < old_names.len() && old_names[i].name@ == n;
            assert(all[i] == old_names[i]);
        }
        if listed_names(added).contains(n) {
            let i = choose|i: int| 0 <= i < added.len() && added[i].name@ == n;
            assert(all[i + old_names.len()] == added[i]);
        }
    }
    assert(listed_names(all) =~= listed_names(old_names).union(
        candidate_names(c.first_name@, c.last_name@),
    ));
}

/// `x` followed by the suffix holds `c` when `x` does.
proof fn lemma_suffixed_contains(x: Seq<char>, c: char)
    requires
        x.contains(c),
    ensures
        (x + DN_SUFFIX@).contains(c),
{
    let k = choose|k: int| 0 <= k < x.len() && x[k] == c;
    assert((x + DN_SUFFIX@)[k] == c);
}

/// `x` followed by the suffix holds no dash when `x` holds none.
proof fn lemma_suffixed_no_dash(x: Seq<char>)
    requires
        !x.contains('-'),
    ensures
        !(x + DN_SUFFIX@).contains('-'),
        without_dashes(x + DN_SUFFIX@) == x + DN_SUFFIX@,
{
    reveal_strlit("2022.fr");
    let n = x + DN_SUFFIX@;
    assert forall|k: int| 0 <= k < n.len() implies n[k] != '-' by {
        if k < x.len() {
            assert(n[k] == x[k]);
        } else {
            assert(n[k] == DN_SUFFIX@[k - x.len()]);
        }
    }
    lemma_without_dashes_no_op(n);
}

/// With a first name holding a character that is neither white space nor a dash, and a last
/// name holding white space or a dash, the four names all differ.
proof fn lemma_four_distinct(f: Seq<char>, l: Seq<char>, i: int, j: int)
    requires
        0 <= i < f.len(),
        !is_space(f[i]),
        f[i] != '-',
        0 <= j < l.len(),
        is_space(l[j]) || l[j] == '-',
    ensures
        ({
            let full = f + seq![' '] + l;
            set![
                replace_space_runs(without_dashes(l), Seq::empty()) + DN_SUFFIX@,
                replace_space_runs(l, seq!['-']) + DN_SUFFIX@,
                replace_space_runs(without_dashes(full), Seq::empty()) + DN_SUFFIX@,
                replace_space_runs(full, seq!['-']) + DN_SUFFIX@,
            ].len() == 4
        }),
{
    reveal_strlit("2022.fr");
    let full = f + seq![' '] + l;
    let sa = replace_space_runs(without_dashes(l), Seq::empty());
    let sb = replace_space_runs(l, seq!['-']);
    let sc = replace_space_runs(without_dashes(full), Seq::empty());
    let sd = replace_space_runs(full, seq!['-']);
    let a = sa + DN_SUFFIX@;
    let b = sb + DN_SUFFIX@;
    let c = sc + DN_SUFFIX@;
    let d = sd + DN_SUFFIX@;
    // a and c hold no dash; b and d hold one.
    lemma_without_dashes_has_none(l);
    lemma_without_dashes_has_none(full);
    lemma_replace_space_runs_keeps_out(without_dashes(l), Seq::empty(), '-');
    lemma_replace_space_runs_keeps_out(without_dashes(full), Seq::empty(), '-');
    lemma_suffixed_no_dash(sa);
    lemma_suffixed_no_dash(sc);
    if is_space(l[j]) {
        lemma_replace_space_runs_shows_rep(l, seq!['-'], j);
    } else {
        lemma_replace_space_runs_keeps(l, seq!['-'], j);
    }
    lemma_suffixed_contains(sb, '-');
    assert(is_space(full[f.len() as int]));
    lemma_replace_space_runs_shows_rep(full, seq!['-'], f.len() as int);
    lemma_suffixed_contains(sd, '-');
    // c is longer than a: it holds the first name too.
    lemma_replace_space_runs_by_nothing(without_dashes(l));
    lemma_replace_space_runs_by_nothing(without_dashes(full));
    lemma_without_dashes_concat(f + seq![' '], l);
    lemma_without_dashes_concat(f, seq![' ']);
    assert(!seq![' '].contains('-')) by {
        if seq![' '].contains('-') {
            let k = choose|k: int| 0 <= k < 1 && seq![' '][k] == '-';
        }
    }
    lemma_without_dashes_no_op(seq![' ']);
    lemma_without_spaces_concat(without_dashes(f) + seq![' '], without_dashes(l));
    lemma_without_spaces_concat(without_dashes(f), seq![' ']);
    assert(without_spaces(seq![' ']) =~= Seq::<char>::empty()) by {
        assert(seq![' '].drop_last() =~= Seq::<char>::empty());
        assert(seq![' '].last() == ' ');
        assert(is_space(' '));
        assert(without_spaces(Seq::<char>::empty()) == Seq::<char>::empty());
    }
    assert(without_spaces(without_dashes(f)) + Seq::<char>::empty() =~= without_spaces(
        without_dashes(f),
    ));
    lemma_without_dashes_keeps(f, i);
    let k = choose|k: int| 0 <= k < without_dashes(f).len() && without_dashes(f)[k] == f[i];
    lemma_without_spaces_keeps(without_dashes(f), k);
    assert(sc.len() > sa.len());
    assert(a != c) by {
        assert(a.len() != c.len());
    }
    // b and d differ, or removing their dashes would make a and c equal.
    lemma_dash_runs_then_no_dashes_is_no_dashes_then_no_spaces(l);
    lemma_dash_runs_then_no_dashes_is_no_dashes_then_no_spaces(full);
    lemma_without_dashes_concat(sb, DN_SUFFIX@);
    lemma_without_dashes_concat(sd, DN_SUFFIX@);
    lemma_suffixed_no_dash(Seq::<char>::empty());
    assert(Seq::<char>::empty() + DN_SUFFIX@ =~= DN_SUFFIX@);
    assert(without_dashes(b) == a);
    assert(without_dashes(d) == c);
    assert(b != d);
    assert(a != b);
    assert(a != d);
    assert(c != b);
    assert(c != d);
    let s0 = Set::<Seq<char>>::empty();
    assert(s0.insert(a).len() == 1);
    assert(s0.insert(a).insert(b).len() == 2);
    assert(s0.insert(a).insert(b).insert(c).len() == 3);
    assert(s0.insert(a).insert(b).insert(c).insert(d).len() == 4);
}

/// The generated names are exactly four variants of the normalized names, each followed by
/// `2022.fr`: the last name, and the first name followed by the last, with every white space
/// and dash left out; and the last name, and the first name, a space and the last name, with
/// each run of white space made one dash.
pub proof fn lemma_candidate_names_are_the_variants(first_name: Seq<char>, last_name: Seq<char>)
    ensures
        ({
            let first = normalized(first_name);
            let last = normalized(last_name);
            candidate_names(first_name, last_name) == set![
                last.filter(plain_char()) + DN_SUFFIX@,
                replace_space_runs(last, seq!['-']) + DN_SUFFIX@,
                (first + last).filter(plain_char()) + DN_SUFFIX@,
                replace_space_runs(first + seq![' '] + last, seq!['-']) + DN_SUFFIX@,
            ]
        }),
{
    let first = normalized(first_name);
    let last = normalized(last_name);
    let full = first + seq![' '] + last;
    lemma_replace_space_runs_by_nothing(without_dashes(last));
    lemma_replace_space_runs_by_nothing(without_dashes(full));
    lemma_no_dashes_no_spaces_is_filter(last);
    lemma_no_dashes_no_spaces_is_filter(full);
    Seq::filter_distributes_over_add(first + seq![' '], last, plain_char());
    Seq::filter_distributes_over_add(first, seq![' '], plain_char());
    Seq::filter_distributes_over_add(first, last, plain_char());
    assert(seq![' '].filter(plain_char()) =~= Seq::<char>::empty()) by {
        reveal_with_fuel(Seq::<char>::filter, 2);
        assert(seq![' '].drop_last() =~= Seq::<char>::empty());
        assert(seq![' '].last() == ' ');
        assert(is_space(' '));
        assert(!(plain_char())(' '));
        assert(Seq::<char>::empty().filter(plain_char()) =~= Seq::<char>::empty());
    }
    assert(first.filter(plain_char()) + Seq::<char>::empty() =~= first.filter(plain_char()));
}

} // verus!
