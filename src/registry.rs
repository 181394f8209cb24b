//! Normalization of loosely shaped alias records into `(name, expansion)` pairs.
use vstd::prelude::*;

verus! {

/// One element of an expansion given as a sequence of tokens.
pub enum RawToken {
    Text(String),
    Other,
}

/// A field of a raw alias record, as the host handed it over.
pub enum RawField {
    Missing,
    Text(String),
    Sequence(Vec<RawToken>),
    Other,
}

/// An alias record before normalization.
pub struct RawAliasRecord {
    pub name: RawField,
    pub expansion: RawField,
}

/// The text of each token; a non-text token counts as empty.
pub open spec fn token_texts(toks: Seq<RawToken>) -> Seq<Seq<char>> {
    toks.map_values(|t: RawToken| match t {
        RawToken::Text(s) => s@,
        RawToken::Other => Seq::<char>::empty(),
    })
}

pub open spec fn all_text(toks: Seq<RawToken>) -> bool {
    forall|i: int| 0 <= i < toks.len() ==> (#[trigger] toks[i]) is Text
}

/// The parts joined in order, with a single space between neighbours.
pub open spec fn join_spaced(parts: Seq<Seq<char>>) -> Seq<char>
    decreases parts.len(),
{
    if parts.len() == 0 {
        Seq::empty()
    } else if parts.len() == 1 {
        parts[0]
    } else {
        join_spaced(parts.drop_last()) + seq![' '] + parts.last()
    }
}

/// The name of a record, when it is text.
pub open spec fn name_text(f: RawField) -> Option<Seq<char>> {
    match f {
        RawField::Text(s) => Some(s@),
        _ => None,
    }
}

/// The expansion of a record: text as it is, or a sequence of text tokens joined by spaces.
pub open spec fn expansion_text(f: RawField) -> Option<Seq<char>> {
    match f {
        RawField::Text(s) => Some(s@),
        RawField::Sequence(v) => if all_text(v@) {
            Some(join_spaced(token_texts(v@)))
        } else {
            None
        },
        _ => None,
    }
}

/// The definition that a record gives, if it is well formed.
pub open spec fn normalize(r: RawAliasRecord) -> Option<(Seq<char>, Seq<char>)> {
    match (name_text(r.name), expansion_text(r.expansion)) {
        (Some(n), Some(e)) => if n.len() > 0 && e.len() > 0 {
            Some((n, e))
        } else {
            None
        },
        _ => None,
    }
}

/// The definitions of the well-formed records, in their order.
pub open spec fn normalized(records: Seq<RawAliasRecord>) -> Seq<(Seq<char>, Seq<char>)>
    decreases records.len(),
{
    if records.len() == 0 {
        Seq::empty()
    } else {
        let rest = normalized(records.drop_last());
        match normalize(records.last()) {
            Some(d) => rest.push(d),
            None => rest,
        }
    }
}

/// The view of a list of `(name, expansion)` pairs.
pub open spec fn pairs_view(ps: Seq<(String, String)>) -> Seq<(Seq<char>, Seq<char>)> {
    ps.map_values(|p: (String, String)| (p.0@, p.1@))
}

/// Every definition has a non-empty name and a non-empty expansion.
pub open spec fn all_nonempty(defs: Seq<(Seq<char>, Seq<char>)>) -> bool {
    forall|i: int| 0 <= i < defs.len() ==> (#[trigger] defs[i]).0.len() > 0 && defs[i].1.len() > 0
}

/// Joins the texts of the tokens with single spaces; `None` if a token is not text.
pub fn join_tokens(toks: &Vec<RawToken>) -> (r: Option<String>)
    ensures
        r is Some <==> all_text(toks@),
        r matches Some(s) ==> s@ == join_spaced(token_texts(toks@)),
{
    let mut out = String::new();
    let mut i: usize = 0;
    while i < toks.len()
        invariant
            i <= toks@.len(),
            all_text(toks@.subrange(0, i as int)),
            out@ == join_spaced(token_texts(toks@.subrange(0, i as int))),
        decreases toks@.len() - i,
    {
        let ghost pre = toks@.subrange(0, i as int);
        let ghost next = toks@.subrange(0, i + 1);
        assert(next.drop_last() == pre);
        assert(token_texts(next).drop_last() == token_texts(pre));
        match &toks[i] {
            RawToken::Text(s) => {
                if i > 0 {
                    out.append(" ");
                }
                out.append(s.as_str());
                proof {
                    reveal_strlit(" ");
                    assert(token_texts(next).last() == s@);
                    if i == 0 {
                        assert(out@ =~= s@);
                    } else {
                        assert(out@ =~= join_spaced(token_texts(pre)) + seq![' '] + s@);
                    }
                    assert forall|k: int| 0 <= k < next.len() implies (#[trigger] next[k]) is Text by {
                        if k < i {
                            assert(next[k] == pre[k]);
                        }
                    }
                }
            },
            RawToken::Other => {
                assert(!all_text(toks@)) by {
                    assert(toks@[i as int] is Other);
                }
                return None;
            },
        }
        i = i + 1;
    }
    assert(toks@.subrange(0, i as int) == toks@);
    Some(out)
}

/// The name of a record, when it is text.
fn field_name(f: &RawField) -> (r: Option<String>)
    ensures
        r matches Some(s) ==> name_text(*f) == Some(s@),
        r is None ==> name_text(*f) is None,
{
    match f {
        RawField::Text(s) => Some(s.clone()),
        _ => None,
    }
}

/// The expansion of a record, with a token sequence joined by spaces.
fn field_expansion(f: &RawField) -> (r: Option<String>)
    ensures
        r matches Some(s) ==> expansion_text(*f) == Some(s@),
        r is None ==> expansion_text(*f) is None,
{
    match f {
        RawField::Text(s) => Some(s.clone()),
        RawField::Sequence(v) => join_tokens(v),
        _ => None,
    }
}

/// The definition that one record gives, if it is well formed.
pub fn normalize_record(record: &RawAliasRecord) -> (r: Option<(String, String)>)
    ensures
        r is Some <==> normalize(*record) is Some,
        r matches Some(p) ==> normalize(*record) == Some((p.0@, p.1@)),
{
    let name = field_name(&record.name);
    let expansion = field_expansion(&record.expansion);
    match (name, expansion) {
        (Some(n), Some(e)) => {
            if n.as_str().is_empty() || e.as_str().is_empty() {
                None
            } else {
                Some((n, e))
            }
        },
        _ => None,
    }
}

/// Normalizes raw alias records: each well-formed record gives one
/// `(name, expansion)` pair, in input order; malformed records are skipped.
pub fn parse_aliases(records: &[RawAliasRecord]) -> (r: Vec<(String, String)>)
    ensures
        pairs_view(r@) == normalized(records@),
        all_nonempty(pairs_view(r@)),
{
    let mut aliases: Vec<(String, String)> = Vec::new();
    let mut i: usize = 0;
    while i < records.len()
        invariant
            i <= records@.len(),
            pairs_view(aliases@) == normalized(records@.subrange(0, i as int)),
        decreases records@.len() - i,
    {
        let ghost pre = records@.subrange(0, i as int);
        let ghost next = records@.subrange(0, i + 1);
        assert(next.drop_last() == pre);
        match normalize_record(&records[i]) {
            Some(p) => {
                aliases.push(p);
                assert(pairs_view(aliases@) =~= normalized(pre).push((p.0@, p.1@)));
            },
            None => {},
        }
        i = i + 1;
    }
    assert(records@.subrange(0, i as int) == records@);
    proof {
        lemma_normalized_nonempty(records@);
    }
    aliases
}

/// Every definition that normalization yields has a non-empty name and expansion.
pub proof fn lemma_normalized_nonempty(records: Seq<RawAliasRecord>)
    ensures
        all_nonempty(normalized(records)),
    decreases records.len(),
{
    if records.len() > 0 {
        lemma_normalized_nonempty(records.drop_last());
    }
}

/// Normalization of a concatenation is the concatenation of the normalizations.
pub proof fn lemma_normalized_append(a: Seq<RawAliasRecord>, b: Seq<RawAliasRecord>)
    ensures
        normalized(a + b) == normalized(a) + normalized(b),
    decreases b.len(),
{
    if b.len() == 0 {
        assert(a + b == a);
        assert(normalized(a) + normalized(b) == normalized(a));
    } else {
        lemma_normalized_append(a, b.drop_last());
        assert((a + b).drop_last() == a + b.drop_last());
        assert((a + b).last() == b.last());
    }
}

/// Parsing is deterministic: two normalizations of the same records are the same list.
pub proof fn lemma_parse_deterministic(
    records: Seq<RawAliasRecord>,
    first: Seq<(String, String)>,
    second: Seq<(String, String)>,
)
    requires
        pairs_view(first) == normalized(records),
        pairs_view(second) == normalized(records),
    ensures
        pairs_view(first) == pairs_view(second),
{
}

/// Records that are already normalized, with text name and text expansion, both
/// non-empty, come out of normalization unchanged.
pub proof fn lemma_normalized_fixed_point(records: Seq<RawAliasRecord>)
    requires
        forall|i: int|
            0 <= i < records.len() ==> {
                &&& (#[trigger] records[i]).name matches RawField::Text(n) && n@.len() > 0
                &&& records[i].expansion matches RawField::Text(e) && e@.len() > 0
            },
    ensures
        normalized(records) == records.map_values(
            |r: RawAliasRecord| (name_text(r.name).unwrap(), expansion_text(r.expansion).unwrap()),
        ),
    decreases records.len(),
{
    if records.len() > 0 {
        let init = records.drop_last();
        assert forall|i: int| 0 <= i < init.len() implies {
            &&& (#[trigger] init[i]).name matches RawField::Text(n) && n@.len() > 0
            &&& init[i].expansion matches RawField::Text(e) && e@.len() > 0
        } by {
            assert(init[i] == records[i]);
        }
        lemma_normalized_fixed_point(init);
        let last = records[records.len() - 1];
        assert(last.name matches RawField::Text(n) && n@.len() > 0);
        assert(normalized(records) =~= records.map_values(
            |r: RawAliasRecord| (name_text(r.name).unwrap(), expansion_text(r.expansion).unwrap()),
        ));
    }
}

/// A record whose name is not text, whose expansion is missing or neither text nor
/// a sequence, or whose expansion sequence holds a non-text token.
pub open spec fn malformed(r: RawAliasRecord) -> bool {
    ||| !(r.name is Text)
    ||| !(r.expansion is Text || r.expansion is Sequence)
    ||| (r.expansion matches RawField::Sequence(v) && exists|k: int|
        0 <= k < v@.len() && (#[trigger] v@[k]) is Other)
}

/// A malformed record is left out and changes nothing else: normalizing the list
/// without it gives the same definitions.
pub proof fn lemma_malformed_omitted(records: Seq<RawAliasRecord>, i: int)
    requires
        0 <= i < records.len(),
        malformed(records[i]),
    ensures
        normalize(records[i]) is None,
        normalized(records) == normalized(records.remove(i)),
{
    let a = records.subrange(0, i);
    let b = records.subrange(i + 1, records.len() as int);
    let one = seq![records[i]];
    assert(records == a + one + b);
    assert(records.remove(i) == a + b);
    lemma_normalized_append(a + one, b);
    lemma_normalized_append(a, one);
    lemma_normalized_append(a, b);
    assert(one.drop_last() == Seq::<RawAliasRecord>::empty());
    assert(normalized(Seq::<RawAliasRecord>::empty()) == Seq::<(Seq<char>, Seq<char>)>::empty());
    assert(one.last() == records[i]);
    assert(normalize(records[i]) is None);
    assert(normalized(one) == Seq::<(Seq<char>, Seq<char>)>::empty());
    assert(normalized(a) + normalized(one) == normalized(a));
}

/// An expansion given as a sequence of text tokens gives the same definition as
/// the tokens joined by single spaces given as one text.
pub proof fn lemma_tokens_as_joined_text(joined: RawAliasRecord, tokens: RawAliasRecord)
    requires
        name_text(joined.name) == name_text(tokens.name),
        tokens.expansion is Sequence,
        joined.expansion is Text,
        all_text(tokens.expansion->Sequence_0@),
        joined.expansion->Text_0@ == join_spaced(token_texts(tokens.expansion->Sequence_0@)),
    ensures
        normalize(joined) == normalize(tokens),
{
}

} // verus!
