//! The streaming reader and aggregator: classifies each input line as a
//! parent marker or a child record, groups children under their parent by
//! identifier, and applies the configured filters.

use vstd::prelude::*;

use crate::ast::{NodeV, ParseErrorKind};
use crate::expr::{expr_eval_spec, Expr};
use crate::records::{
    domain_names, genes_view, prune_domains_spec, DomainRecord, DomainRecordV,
    GeneRecord, GeneRecordV,
};
use crate::strutil::{
    char_vecs_eq, char_vecs_view, chars_of, chars_to_string, dec_val, is_u64_digits, parse_u64,
    split_chars, split_seq, starts_with_chars, starts_with_seq, strings_view, strs_view,
    trim_chars, trim_seq,
};

verus! {

/// The reason a read pass failed.
#[derive(Debug, Clone, Copy, PartialEq, Eq, Structural)]
pub enum ReadErrorKind {
    /// A record line did not have exactly nine tab-separated fields.
    InvalidLine,
    /// A start or end field was not an unsigned integer in range.
    InvalidNumber,
    /// A parent marker line whose end lies before its start, or whose
    /// span length does not fit.
    InvalidSpan,
    /// A filter expression failed to evaluate.
    Expression(ParseErrorKind),
}

/// A fatal error of the read pass.
#[derive(Debug, Clone, Copy, PartialEq, Eq, Structural)]
pub struct ReadError {
    pub kind: ReadErrorKind,
}

impl ReadError {
    /// Wraps an error kind.
    pub fn new(kind: ReadErrorKind) -> (r: Self)
        ensures
            r.kind == kind,
    {
        ReadError { kind }
    }
}

/// The default name of a child whose attributes carry none.
pub open spec fn default_name() -> Seq<char> {
    seq!['N', 'o', ' ', 'N', 'a', 'm', 'e']
}

/// The default description of a child whose attributes carry none.
pub open spec fn default_desc() -> Seq<char> {
    seq!['N', 'o', ' ', 'D', 'e', 's', 'c', 'r', 'i', 'p', 't', 'i', 'o', 'n']
}

/// The attribute key carrying a child's name.
pub open spec fn key_name() -> Seq<char> {
    seq!['N', 'a', 'm', 'e']
}

/// The attribute key carrying a child's description.
pub open spec fn key_desc() -> Seq<char> {
    seq!['s', 'i', 'g', 'n', 'a', 't', 'u', 'r', 'e', '_', 'd', 'e', 's', 'c']
}

/// Folds `key=value` attributes from the front, later occurrences
/// overriding earlier ones; parts that are not exactly `key=value` are
/// ignored.
pub open spec fn attrs_fold(parts: Seq<Seq<char>>, name: Seq<char>, desc: Seq<char>) -> (
    Seq<char>,
    Seq<char>,
)
    decreases parts.len(),
{
    if parts.len() == 0 {
        (name, desc)
    } else {
        let kv = split_seq(parts[0], '=');
        if kv.len() == 2 && kv[0] == key_name() {
            attrs_fold(parts.drop_first(), kv[1], desc)
        } else if kv.len() == 2 && kv[0] == key_desc() {
            attrs_fold(parts.drop_first(), name, kv[1])
        } else {
            attrs_fold(parts.drop_first(), name, desc)
        }
    }
}

/// The name and description drawn from the `;`-separated attribute field.
pub open spec fn attrs_spec(attrs: Seq<char>) -> (Seq<char>, Seq<char>) {
    attrs_fold(split_seq(attrs, ';'), default_name(), default_desc())
}

/// The identifier and record parsed from one line: the line is trimmed,
/// split on tabs into exactly nine fields, of which the first is the
/// identifier, the second the source name, the fourth and fifth the
/// 1-based inclusive span, and the ninth the attributes.
pub open spec fn parse_line_spec(line: Seq<char>) -> Result<
    (Seq<char>, DomainRecordV),
    ReadErrorKind,
> {
    let t = trim_seq(line);
    let fields = split_seq(t, '\t');
    if fields.len() != 9 {
        Err(ReadErrorKind::InvalidLine)
    } else if !is_u64_digits(fields[3]) || !is_u64_digits(fields[4]) {
        Err(ReadErrorKind::InvalidNumber)
    } else {
        let nd = attrs_spec(fields[8]);
        Ok(
            (
                fields[0],
                DomainRecordV {
                    source: fields[1],
                    start: dec_val(fields[3]) as u64,
                    end: dec_val(fields[4]) as u64,
                    domain_name: nd.0,
                    domain_desc: nd.1,
                },
            ),
        )
    }
}

/// Parses one tab-separated record line into its identifier and child
/// record.
pub fn parse_line(line: &str) -> (r: Result<(String, DomainRecord), ReadError>)
    ensures
        match parse_line_spec(line@) {
            Ok(p) => {
                &&& r matches Ok(q)
                &&& q.0@ == p.0
                &&& q.1@ == p.1
            },
            Err(k) => r matches Err(e) && e.kind == k,
        },
{
    let cs = chars_of(line);
    let trimmed = trim_chars(&cs);
    let fields = split_chars(&trimmed, '\t');
    let ghost fieldsv = split_seq(trim_seq(line@), '\t');
    if fields.len() != 9 {
        return Err(ReadError::new(ReadErrorKind::InvalidLine));
    }
    let start = match parse_u64(&fields[3]) {
        Some(v) => v,
        None => {
            return Err(ReadError::new(ReadErrorKind::InvalidNumber));
        },
    };
    let end = match parse_u64(&fields[4]) {
        Some(v) => v,
        None => {
            return Err(ReadError::new(ReadErrorKind::InvalidNumber));
        },
    };
    let key_name_cs = chars_of("Name");
    let key_desc_cs = chars_of("signature_desc");
    let mut name = chars_of("No Name");
    let mut desc = chars_of("No Description");
    proof {
        reveal_strlit("Name");
        reveal_strlit("signature_desc");
        reveal_strlit("No Name");
        reveal_strlit("No Description");
        assert(key_name_cs@ =~= key_name());
        assert(key_desc_cs@ =~= key_desc());
        assert(name@ =~= default_name());
        assert(desc@ =~= default_desc());
    }
    let attrs = split_chars(&fields[8], ';');
    let ghost attrsv = split_seq(fieldsv[8], ';');
    let mut i: usize = 0;
    proof {
        assert(attrsv.skip(0) =~= attrsv);
    }
    while i < attrs.len()
        invariant
            0 <= i <= attrs@.len(),
            split_seq(fieldsv[8], ';') == attrsv,
            char_vecs_view(attrs@) == attrsv,
            key_name_cs@ == key_name(),
            key_desc_cs@ == key_desc(),
            attrs_fold(attrsv, default_name(), default_desc()) == attrs_fold(
                attrsv.skip(i as int),
                name@,
                desc@,
            ),
        decreases attrs@.len() - i,
    {
        let ghost su = attrsv.skip(i as int);
        proof {
            assert(su[0] == attrsv[i as int]);
            assert(su.drop_first() =~= attrsv.skip(i as int + 1));
        }
        let mut kv = split_chars(&attrs[i], '=');
        let ghost kvv = split_seq(attrsv[i as int], '=');
        if kv.len() == 2 {
            let value = match kv.pop() {
                Some(v) => v,
                None => {
                    return Err(ReadError::new(ReadErrorKind::InvalidLine));
                },
            };
            let key = match kv.pop() {
                Some(v) => v,
                None => {
                    return Err(ReadError::new(ReadErrorKind::InvalidLine));
                },
            };
            proof {
                assert(key@ == kvv[0]);
                assert(value@ == kvv[1]);
            }
            if char_vecs_eq(&key, &key_name_cs) {
                name = value;
            } else if char_vecs_eq(&key, &key_desc_cs) {
                desc = value;
            }
        }
        i = i + 1;
    }
    proof {
        assert(attrsv.skip(attrsv.len() as int) =~= Seq::<Seq<char>>::empty());
    }
    let id = chars_to_string(&fields[0]);
    let source = chars_to_string(&fields[1]);
    let name_s = chars_to_string(&name);
    let desc_s = chars_to_string(&desc);
    Ok((id, DomainRecord::new(source, start, end, name_s, desc_s)))
}

/// The configuration and input of one read pass, in mathematical form.
pub struct ReaderCfg {
    pub lines: Seq<Seq<char>>,
    pub comment: char,
    pub finish_line: Seq<char>,
    pub id_expr: Option<Option<NodeV>>,
    pub domain_expr: Option<Option<NodeV>>,
    pub source_expr: Option<Option<NodeV>>,
    pub max_length: Option<u64>,
    pub min_length: Option<u64>,
}

/// The constraint tree of an optional expression.
pub open spec fn opt_expr_view(o: Option<Expr>) -> Option<Option<NodeV>> {
    match o {
        None => None,
        Some(e) => Some(e@),
    }
}

/// The default sentinel line prefix after which record lines end and
/// sequence data follows.
pub open spec fn default_finish_line() -> Seq<char> {
    seq!['#', '#', ' ', 'F', 'A', 'S', 'T', 'A', ' ', '#', '#']
}

/// Some accumulated record carries this identifier.
pub open spec fn contains_id(acc: Seq<GeneRecordV>, id: Seq<char>) -> bool {
    exists|j: int| 0 <= j < acc.len() && acc[j].id == id
}

/// The index of the accumulated record carrying this identifier.
pub open spec fn index_of_id(acc: Seq<GeneRecordV>, id: Seq<char>) -> int {
    choose|j: int| 0 <= j < acc.len() && acc[j].id == id
}

/// No two accumulated records share an identifier.
pub open spec fn distinct_ids(acc: Seq<GeneRecordV>) -> bool {
    forall|a: int, b: int| 0 <= a < b < acc.len() ==> acc[a].id != acc[b].id
}

/// `acc` with the child `d` appended to the record carrying `id`.
pub open spec fn append_domain(acc: Seq<GeneRecordV>, id: Seq<char>, d: DomainRecordV) -> Seq<
    GeneRecordV,
> {
    let j = index_of_id(acc, id);
    acc.update(
        j,
        GeneRecordV { id: acc[j].id, length: acc[j].length, domains: acc[j].domains.push(d) },
    )
}

/// The identifier gate of one line: an absent identifier filter passes
/// every line.
pub open spec fn id_gate(cfg: ReaderCfg, id: Seq<char>) -> Result<bool, ParseErrorKind> {
    match cfg.id_expr {
        None => Ok(true),
        Some(ev) => expr_eval_spec(ev, seq![id]),
    }
}

/// One forward pass over the lines from position `i` on, growing the
/// accumulated parent records. A line starting with the sentinel ends the
/// pass; comment lines and lines of one character are skipped; every
/// other line must parse. A line whose identifier fails the identifier
/// filter is skipped entirely. A parent marker line creates a record,
/// unless a length bound excludes it or a record with its identifier
/// already exists (first wins); its span must be well formed. A child
/// line is appended to its parent's record, or dropped when no parent
/// preceded it.
pub open spec fn accumulate_spec(cfg: ReaderCfg, i: int, acc: Seq<GeneRecordV>) -> Result<
    Seq<GeneRecordV>,
    ReadErrorKind,
>
    decreases cfg.lines.len() - i,
{
    if i < 0 || i >= cfg.lines.len() {
        Ok(acc)
    } else {
        let l = cfg.lines[i];
        if starts_with_seq(l, cfg.finish_line) {
            Ok(acc)
        } else if l.len() >= 1 && l[0] == cfg.comment {
            accumulate_spec(cfg, i + 1, acc)
        } else if l.len() == 1 {
            accumulate_spec(cfg, i + 1, acc)
        } else {
            match parse_line_spec(l) {
                Err(k) => Err(k),
                Ok(p) => match id_gate(cfg, p.0) {
                    Err(k) => Err(ReadErrorKind::Expression(k)),
                    Ok(false) => accumulate_spec(cfg, i + 1, acc),
                    Ok(true) => {
                        let id = p.0;
                        let d = p.1;
                        if d.source == seq!['.'] {
                            if d.start > d.end || d.end - d.start == u64::MAX {
                                Err(ReadErrorKind::InvalidSpan)
                            } else {
                                let len = (d.end - d.start + 1) as u64;
                                if cfg.max_length matches Some(m) && len > m {
                                    accumulate_spec(cfg, i + 1, acc)
                                } else if cfg.min_length matches Some(m) && len < m {
                                    accumulate_spec(cfg, i + 1, acc)
                                } else if contains_id(acc, id) {
                                    accumulate_spec(cfg, i + 1, acc)
                                } else {
                                    accumulate_spec(
                                        cfg,
                                        i + 1,
                                        acc.push(
                                            GeneRecordV { id, length: len, domains: Seq::empty() },
                                        ),
                                    )
                                }
                            }
                        } else {
                            if contains_id(acc, id) {
                                accumulate_spec(cfg, i + 1, append_domain(acc, id, d))
                            } else {
                                accumulate_spec(cfg, i + 1, acc)
                            }
                        }
                    },
                },
            }
        }
    }
}

/// The domain-set gate of one accumulated record: an absent filter keeps
/// every record.
pub open spec fn domain_gate(cfg: ReaderCfg, g: GeneRecordV) -> Result<bool, ParseErrorKind> {
    match cfg.domain_expr {
        None => Ok(true),
        Some(ev) => expr_eval_spec(ev, domain_names(g.domains)),
    }
}

/// The source-name pruning of one record: an absent filter keeps the
/// record unchanged.
pub open spec fn source_prune(cfg: ReaderCfg, g: GeneRecordV) -> Result<
    GeneRecordV,
    ParseErrorKind,
> {
    match cfg.source_expr {
        None => Ok(g),
        Some(ev) => match prune_domains_spec(ev, g.domains) {
            Err(k) => Err(k),
            Ok(ds) => Ok(GeneRecordV { id: g.id, length: g.length, domains: ds }),
        },
    }
}

/// The post-pass filter from position `i` on: every record failing the
/// domain-set gate is dropped, and every surviving record has its
/// children pruned by the source-name filter. The first evaluation error
/// is fatal.
pub open spec fn post_filter_spec(
    cfg: ReaderCfg,
    recs: Seq<GeneRecordV>,
    i: int,
    out: Seq<GeneRecordV>,
) -> Result<Seq<GeneRecordV>, ReadErrorKind>
    decreases recs.len() - i,
{
    if i < 0 || i >= recs.len() {
        Ok(out)
    } else {
        match domain_gate(cfg, recs[i]) {
            Err(k) => Err(ReadErrorKind::Expression(k)),
            Ok(false) => post_filter_spec(cfg, recs, i + 1, out),
            Ok(true) => match source_prune(cfg, recs[i]) {
                Err(k) => Err(ReadErrorKind::Expression(k)),
                Ok(g) => post_filter_spec(cfg, recs, i + 1, out.push(g)),
            },
        }
    }
}

/// The record collection produced by one whole read pass: the forward
/// accumulation followed by the post-pass filter.
pub open spec fn read_spec(cfg: ReaderCfg) -> Result<Seq<GeneRecordV>, ReadErrorKind> {
    match accumulate_spec(cfg, 0, Seq::empty()) {
        Err(k) => Err(k),
        Ok(recs) => post_filter_spec(cfg, recs, 0, Seq::empty()),
    }
}

/// A line that would create the parent record for `id`: it parses, its
/// identifier is `id`, and it is a parent marker line.
pub open spec fn is_parent_line_for(l: Seq<char>, id: Seq<char>) -> bool {
    parse_line_spec(l) matches Ok(p) && p.0 == id && p.1.source == seq!['.']
}

/// Accumulation introduces no identifier without a parent marker line:
/// child lines alone never produce a record.
proof fn lemma_accumulate_orphans(cfg: ReaderCfg, i: int, acc: Seq<GeneRecordV>, id: Seq<char>)
    requires
        0 <= i <= cfg.lines.len(),
        accumulate_spec(cfg, i, acc) is Ok,
        !contains_id(acc, id),
        forall|j: int|
            i <= j < cfg.lines.len() ==> !is_parent_line_for(#[trigger] cfg.lines[j], id),
    ensures
        !contains_id(accumulate_spec(cfg, i, acc)->Ok_0, id),
    decreases cfg.lines.len() - i,
{
    if i < cfg.lines.len() {
        let l = cfg.lines[i];
        if !starts_with_seq(l, cfg.finish_line) && !(l.len() >= 1 && l[0] == cfg.comment)
            && l.len() != 1 {
            if let Ok(p) = parse_line_spec(l) {
                if id_gate(cfg, p.0) == Ok::<bool, ParseErrorKind>(true) {
                    if p.1.source == seq!['.'] {
                        assert(p.0 != id);
                        if !(p.1.start > p.1.end || p.1.end - p.1.start == u64::MAX) {
                            let len = (p.1.end - p.1.start + 1) as u64;
                            if (cfg.max_length matches Some(m) && len > m) || (
                            cfg.min_length matches Some(m) && len < m) || contains_id(acc, p.0) {
                                lemma_accumulate_orphans(cfg, i + 1, acc, id);
                            } else {
                                let g = GeneRecordV { id: p.0, length: len, domains: Seq::empty() };
                                assert(!contains_id(acc.push(g), id)) by {
                                    assert(forall|k: int|
                                        0 <= k < acc.len() ==> (#[trigger] acc.push(g)[k]).id
                                            == acc[k].id);
                                    assert(acc.push(g)[acc.len() as int].id == p.0);
                                }
                                lemma_accumulate_orphans(cfg, i + 1, acc.push(g), id);
                            }
                        }
                    } else {
                        if contains_id(acc, p.0) {
                            let acc2 = append_domain(acc, p.0, p.1);
                            assert(!contains_id(acc2, id)) by {
                                assert(forall|k: int|
                                    0 <= k < acc.len() ==> (#[trigger] acc2[k]).id == acc[k].id);
                                assert(acc2.len() == acc.len());
                            }
                            lemma_accumulate_orphans(cfg, i + 1, acc2, id);
                        } else {
                            lemma_accumulate_orphans(cfg, i + 1, acc, id);
                        }
                    }
                } else {
                    lemma_accumulate_orphans(cfg, i + 1, acc, id);
                }
            }
        } else if !starts_with_seq(l, cfg.finish_line) {
            lemma_accumulate_orphans(cfg, i + 1, acc, id);
        }
    }
}

/// The post-pass filter introduces no identifiers.
proof fn lemma_post_filter_ids(
    cfg: ReaderCfg,
    recs: Seq<GeneRecordV>,
    i: int,
    out: Seq<GeneRecordV>,
    id: Seq<char>,
)
    requires
        0 <= i <= recs.len(),
        post_filter_spec(cfg, recs, i, out) is Ok,
        !contains_id(recs, id),
        !contains_id(out, id),
    ensures
        !contains_id(post_filter_spec(cfg, recs, i, out)->Ok_0, id),
    decreases recs.len() - i,
{
    if i < recs.len() {
        assert(recs[i].id != id);
        match domain_gate(cfg, recs[i]) {
            Err(_) => {},
            Ok(false) => {
                lemma_post_filter_ids(cfg, recs, i + 1, out, id);
            },
            Ok(true) => {
                if let Ok(g) = source_prune(cfg, recs[i]) {
                    assert(g.id == recs[i].id);
                    assert(!contains_id(out.push(g), id)) by {
                        assert(forall|k: int|
                            0 <= k < out.len() ==> (#[trigger] out.push(g)[k]).id == out[k].id);
                        assert(out.push(g)[out.len() as int].id == g.id);
                    }
                    lemma_post_filter_ids(cfg, recs, i + 1, out.push(g), id);
                }
            },
        }
    }
}

/// A child line for an identifier with no parent marker line is dropped
/// and produces no record: no identifier appears in the result unless
/// some line would create its parent.
pub proof fn law_orphan_children_dropped(cfg: ReaderCfg, id: Seq<char>)
    requires
        read_spec(cfg) is Ok,
        forall|j: int|
            0 <= j < cfg.lines.len() ==> !is_parent_line_for(#[trigger] cfg.lines[j], id),
    ensures
        !contains_id(read_spec(cfg)->Ok_0, id),
{
    lemma_accumulate_orphans(cfg, 0, Seq::empty(), id);
    let recs = accumulate_spec(cfg, 0, Seq::empty())->Ok_0;
    lemma_post_filter_ids(cfg, recs, 0, Seq::empty(), id);
}

/// All record lengths lie within the configured bounds.
pub open spec fn lengths_in_bounds(cfg: ReaderCfg, gs: Seq<GeneRecordV>) -> bool {
    forall|j: int|
        0 <= j < gs.len() ==> {
            &&& (cfg.min_length matches Some(m) ==> (#[trigger] gs[j]).length >= m)
            &&& (cfg.max_length matches Some(m) ==> gs[j].length <= m)
        }
}

/// Accumulation only creates records within the length bounds.
proof fn lemma_accumulate_bounds(cfg: ReaderCfg, i: int, acc: Seq<GeneRecordV>)
    requires
        0 <= i <= cfg.lines.len(),
        accumulate_spec(cfg, i, acc) is Ok,
        lengths_in_bounds(cfg, acc),
    ensures
        lengths_in_bounds(cfg, accumulate_spec(cfg, i, acc)->Ok_0),
    decreases cfg.lines.len() - i,
{
    if i < cfg.lines.len() {
        let l = cfg.lines[i];
        if !starts_with_seq(l, cfg.finish_line) && !(l.len() >= 1 && l[0] == cfg.comment)
            && l.len() != 1 {
            if let Ok(p) = parse_line_spec(l) {
                if id_gate(cfg, p.0) == Ok::<bool, ParseErrorKind>(true) {
                    if p.1.source == seq!['.'] {
                        if !(p.1.start > p.1.end || p.1.end - p.1.start == u64::MAX) {
                            let len = (p.1.end - p.1.start + 1) as u64;
                            if !(cfg.max_length matches Some(m) && len > m) && !(
                            cfg.min_length matches Some(m) && len < m) && !contains_id(acc, p.0) {
                                let g = GeneRecordV { id: p.0, length: len, domains: Seq::empty() };
                                assert(lengths_in_bounds(cfg, acc.push(g))) by {
                                    assert(forall|k: int|
                                        0 <= k < acc.len() ==> #[trigger] acc.push(g)[k]
                                            == acc[k]);
                                    assert(acc.push(g)[acc.len() as int] == g);
                                }
                                lemma_accumulate_bounds(cfg, i + 1, acc.push(g));
                            } else if contains_id(acc, p.0) && !(
                            cfg.max_length matches Some(m) && len > m) && !(
                            cfg.min_length matches Some(m) && len < m) {
                                lemma_accumulate_bounds(cfg, i + 1, acc);
                            } else {
                                lemma_accumulate_bounds(cfg, i + 1, acc);
                            }
                        }
                    } else {
                        if contains_id(acc, p.0) {
                            let acc2 = append_domain(acc, p.0, p.1);
                            assert(lengths_in_bounds(cfg, acc2)) by {
                                assert(forall|k: int|
                                    0 <= k < acc.len() ==> (#[trigger] acc2[k]).length
                                        == acc[k].length);
                                assert(acc2.len() == acc.len());
                            }
                            lemma_accumulate_bounds(cfg, i + 1, acc2);
                        } else {
                            lemma_accumulate_bounds(cfg, i + 1, acc);
                        }
                    }
                } else {
                    lemma_accumulate_bounds(cfg, i + 1, acc);
                }
            }
        } else if !starts_with_seq(l, cfg.finish_line) {
            lemma_accumulate_bounds(cfg, i + 1, acc);
        }
    }
}

/// The post-pass filter keeps every record's length.
proof fn lemma_post_filter_bounds(cfg: ReaderCfg, recs: Seq<GeneRecordV>, i: int, out: Seq<
    GeneRecordV,
>)
    requires
        0 <= i <= recs.len(),
        post_filter_spec(cfg, recs, i, out) is Ok,
        lengths_in_bounds(cfg, recs),
        lengths_in_bounds(cfg, out),
    ensures
        lengths_in_bounds(cfg, post_filter_spec(cfg, recs, i, out)->Ok_0),
    decreases recs.len() - i,
{
    if i < recs.len() {
        match domain_gate(cfg, recs[i]) {
            Err(_) => {},
            Ok(false) => {
                lemma_post_filter_bounds(cfg, recs, i + 1, out);
            },
            Ok(true) => {
                if let Ok(g) = source_prune(cfg, recs[i]) {
                    assert(g.length == recs[i].length);
                    assert(lengths_in_bounds(cfg, out.push(g))) by {
                        assert(forall|k: int|
                            0 <= k < out.len() ==> #[trigger] out.push(g)[k] == out[k]);
                        assert(out.push(g)[out.len() as int] == g);
                    }
                    lemma_post_filter_bounds(cfg, recs, i + 1, out.push(g));
                }
            },
        }
    }
}

/// Length bounds exclude a parent at creation: every record of a
/// successful read respects the configured bounds.
pub proof fn law_length_bounds_hold(cfg: ReaderCfg)
    requires
        read_spec(cfg) is Ok,
    ensures
        lengths_in_bounds(cfg, read_spec(cfg)->Ok_0),
{
    lemma_accumulate_bounds(cfg, 0, Seq::empty());
    let recs = accumulate_spec(cfg, 0, Seq::empty())->Ok_0;
    lemma_post_filter_bounds(cfg, recs, 0, Seq::empty());
}

/// A record of the final collection stems from an accumulated record
/// that passed the domain-set gate and was pruned by the source filter.
pub open spec fn came_through_filters(cfg: ReaderCfg, g: GeneRecordV) -> bool {
    exists|r: GeneRecordV|
        {
            &&& #[trigger] domain_gate(cfg, r) == Ok::<bool, ParseErrorKind>(true)
            &&& source_prune(cfg, r) == Ok::<GeneRecordV, ParseErrorKind>(g)
        }
}

/// Every child that pruning keeps satisfies the source-name filter.
proof fn lemma_prune_sources_match(ev: Option<NodeV>, ds: Seq<DomainRecordV>)
    requires
        prune_domains_spec(ev, ds) is Ok,
    ensures
        forall|k: int|
            0 <= k < prune_domains_spec(ev, ds)->Ok_0.len() ==> expr_eval_spec(
                ev,
                seq![(#[trigger] prune_domains_spec(ev, ds)->Ok_0[k]).source],
            ) == Ok::<bool, ParseErrorKind>(true),
    decreases ds.len(),
{
    if ds.len() > 0 {
        lemma_prune_sources_match(ev, ds.drop_last());
        let rest = prune_domains_spec(ev, ds.drop_last())->Ok_0;
        if expr_eval_spec(ev, seq![ds.last().source]) == Ok::<bool, ParseErrorKind>(true) {
            assert(forall|k: int|
                0 <= k < rest.len() ==> #[trigger] rest.push(ds.last())[k] == rest[k]);
            assert(rest.push(ds.last())[rest.len() as int] == ds.last());
        }
    }
}

/// Every record of the post-pass filter's result came through both
/// filters.
proof fn lemma_post_filter_through(cfg: ReaderCfg, recs: Seq<GeneRecordV>, i: int, out: Seq<
    GeneRecordV,
>)
    requires
        0 <= i <= recs.len(),
        post_filter_spec(cfg, recs, i, out) is Ok,
        forall|j: int| 0 <= j < out.len() ==> came_through_filters(cfg, #[trigger] out[j]),
    ensures
        forall|j: int|
            0 <= j < post_filter_spec(cfg, recs, i, out)->Ok_0.len() ==> came_through_filters(
                cfg,
                #[trigger] post_filter_spec(cfg, recs, i, out)->Ok_0[j],
            ),
    decreases recs.len() - i,
{
    if i < recs.len() {
        match domain_gate(cfg, recs[i]) {
            Err(_) => {},
            Ok(false) => {
                lemma_post_filter_through(cfg, recs, i + 1, out);
            },
            Ok(true) => {
                if let Ok(g) = source_prune(cfg, recs[i]) {
                    assert(came_through_filters(cfg, g));
                    assert(forall|j: int|
                        0 <= j < out.len() ==> #[trigger] out.push(g)[j] == out[j]);
                    assert(out.push(g)[out.len() as int] == g);
                    lemma_post_filter_through(cfg, recs, i + 1, out.push(g));
                }
            },
        }
    }
}

/// The domain filter keeps exactly the parents whose accumulated record
/// passes it, and the source filter prunes the children of every kept
/// parent: each returned record came through the domain-set gate, and
/// each of its remaining children satisfies the source-name filter.
pub proof fn law_post_filters_hold(cfg: ReaderCfg, j: int)
    requires
        read_spec(cfg) is Ok,
        0 <= j < read_spec(cfg)->Ok_0.len(),
    ensures
        came_through_filters(cfg, read_spec(cfg)->Ok_0[j]),
        cfg.source_expr matches Some(ev) ==> forall|k: int|
            0 <= k < read_spec(cfg)->Ok_0[j].domains.len() ==> expr_eval_spec(
                ev,
                seq![(#[trigger] read_spec(cfg)->Ok_0[j].domains[k]).source],
            ) == Ok::<bool, ParseErrorKind>(true),
{
    let recs = accumulate_spec(cfg, 0, Seq::empty())->Ok_0;
    lemma_post_filter_through(cfg, recs, 0, Seq::empty());
    let g = read_spec(cfg)->Ok_0[j];
    if let Some(ev) = cfg.source_expr {
        let r = choose|r: GeneRecordV|
            {
                &&& #[trigger] domain_gate(cfg, r) == Ok::<bool, ParseErrorKind>(true)
                &&& source_prune(cfg, r) == Ok::<GeneRecordV, ParseErrorKind>(g)
            };
        assert(prune_domains_spec(ev, r.domains) is Ok);
        assert(g.domains == prune_domains_spec(ev, r.domains)->Ok_0);
        lemma_prune_sources_match(ev, r.domains);
    }
}

/// Reads tab-separated annotation lines and aggregates them into parent
/// records, applying the configured filters in a single pass followed by
/// a post-pass filter.
#[must_use]
pub struct InterproGffReader {
    lines: Vec<String>,
    comment: char,
    finish_line: String,
    id_expr: Option<Expr>,
    domain_expr: Option<Expr>,
    source_expr: Option<Expr>,
    max_length: Option<u64>,
    min_length: Option<u64>,
}

impl View for InterproGffReader {
    type V = ReaderCfg;

    closed spec fn view(&self) -> ReaderCfg {
        ReaderCfg {
            lines: strings_view(self.lines@),
            comment: self.comment,
            finish_line: self.finish_line@,
            id_expr: opt_expr_view(self.id_expr),
            domain_expr: opt_expr_view(self.domain_expr),
            source_expr: opt_expr_view(self.source_expr),
            max_length: self.max_length,
            min_length: self.min_length,
        }
    }
}

/// Finds the position of the record carrying `id`, if one exists.
fn find_by_id(acc: &Vec<GeneRecord>, id: &String) -> (r: Option<usize>)
    ensures
        match r {
            Some(j) => 0 <= j < acc@.len() && genes_view(acc@)[j as int].id == id@,
            None => !contains_id(genes_view(acc@), id@),
        },
{
    let mut j: usize = 0;
    while j < acc.len()
        invariant
            0 <= j <= acc@.len(),
            forall|k: int| 0 <= k < j ==> genes_view(acc@)[k].id != id@,
        decreases acc@.len() - j,
    {
        if acc[j].id == *id {
            return Some(j);
        }
        j = j + 1;
    }
    None
}

impl InterproGffReader {
    /// Builds a reader over the given lines with the default comment
    /// character and sentinel line, and no filters or bounds.
    pub fn new(lines: Vec<String>) -> (r: Self)
        ensures
            r@ == (ReaderCfg {
                lines: strings_view(lines@),
                comment: '#',
                finish_line: default_finish_line(),
                id_expr: None,
                domain_expr: None,
                source_expr: None,
                max_length: None,
                min_length: None,
            }),
    {
        let finish_line: String = "## FASTA ##".to_owned();
        proof {
            reveal_strlit("## FASTA ##");
            assert(finish_line@ =~= default_finish_line());
        }
        InterproGffReader {
            lines,
            comment: '#',
            finish_line,
            id_expr: None,
            domain_expr: None,
            source_expr: None,
            max_length: None,
            min_length: None,
        }
    }

    /// Replaces the comment character.
    pub fn with_comment(self, comment: char) -> (r: Self)
        ensures
            r@ == (ReaderCfg { comment, ..self@ }),
    {
        InterproGffReader { comment, ..self }
    }

    /// Replaces the sentinel line.
    pub fn with_finish_line(self, finish_line: String) -> (r: Self)
        ensures
            r@ == (ReaderCfg { finish_line: finish_line@, ..self@ }),
    {
        InterproGffReader { finish_line, ..self }
    }

    /// Sets the identifier filter.
    pub fn with_id_expr(self, expr: Option<Expr>) -> (r: Self)
        ensures
            r@ == (ReaderCfg { id_expr: opt_expr_view(expr), ..self@ }),
    {
        InterproGffReader { id_expr: expr, ..self }
    }

    /// Sets the domain-set filter.
    pub fn with_domain_expr(self, expr: Option<Expr>) -> (r: Self)
        ensures
            r@ == (ReaderCfg { domain_expr: opt_expr_view(expr), ..self@ }),
    {
        InterproGffReader { domain_expr: expr, ..self }
    }

    /// Sets the source-name filter.
    pub fn with_source_expr(self, expr: Option<Expr>) -> (r: Self)
        ensures
            r@ == (ReaderCfg { source_expr: opt_expr_view(expr), ..self@ }),
    {
        InterproGffReader { source_expr: expr, ..self }
    }

    /// Sets the inclusive upper length bound for new parent records.
    pub fn with_max_length(self, length: Option<u64>) -> (r: Self)
        ensures
            r@ == (ReaderCfg { max_length: length, ..self@ }),
    {
        InterproGffReader { max_length: length, ..self }
    }

    /// Sets the inclusive lower length bound for new parent records.
    pub fn with_min_length(self, length: Option<u64>) -> (r: Self)
        ensures
            r@ == (ReaderCfg { min_length: length, ..self@ }),
    {
        InterproGffReader { min_length: length, ..self }
    }

    /// Runs the pass and returns the final record collection, in
    /// first-seen order of the surviving parents.
    pub fn finish(self) -> (r: Result<Vec<GeneRecord>, ReadError>)
        ensures
            match read_spec(self@) {
                Ok(rs) => r matches Ok(v) && genes_view(v@) == rs,
                Err(k) => r matches Err(e) && e.kind == k,
            },
    {
        let ghost cfg = self@;
        let finish_chars = chars_of(self.finish_line.as_str());
        let mut acc: Vec<GeneRecord> = Vec::new();
        let mut i: usize = 0;
        proof {
            assert(genes_view(acc@) =~= Seq::<GeneRecordV>::empty());
        }
        while i < self.lines.len()
            invariant_except_break
                0 <= i <= self.lines@.len(),
                cfg == self@,
                finish_chars@ == cfg.finish_line,
                distinct_ids(genes_view(acc@)),
                accumulate_spec(cfg, 0, Seq::empty()) == accumulate_spec(
                    cfg,
                    i as int,
                    genes_view(acc@),
                ),
            ensures
                cfg == self@,
                distinct_ids(genes_view(acc@)),
                accumulate_spec(cfg, 0, Seq::empty()) == Ok::<_, ReadErrorKind>(genes_view(acc@)),
            decreases self.lines@.len() - i,
        {
            let ghost accv = genes_view(acc@);
            let line_cs = chars_of(self.lines[i].as_str());
            proof {
                assert(line_cs@ == cfg.lines[i as int]);
            }
            if starts_with_chars(&line_cs, &finish_chars) {
                break ;
            }
            if line_cs.len() >= 1 && line_cs[0] == self.comment {
                // comment line: skipped
            } else if line_cs.len() == 1 {
                // blank-line guard: skipped
            } else {
                let (id, domain) = match parse_line(self.lines[i].as_str()) {
                    Ok(p) => p,
                    Err(e) => {
                        return Err(e);
                    },
                };
                let ghost idv = id@;
                let ghost dv = domain@;
                let passes = match &self.id_expr {
                    None => true,
                    Some(expr) => {
                        let tags: Vec<&str> = vec![id.as_str()];
                        proof {
                            assert(strs_view(tags@) =~= seq![idv]);
                        }
                        match expr.matches(tags.as_slice()) {
                            Err(e) => {
                                return Err(
                                    ReadError::new(ReadErrorKind::Expression(e.kind)),
                                );
                            },
                            Ok(b) => b,
                        }
                    },
                };
                if passes {
                    if domain.is_gene() {
                        if domain.start > domain.end {
                            return Err(ReadError::new(ReadErrorKind::InvalidSpan));
                        }
                        let diff = domain.end - domain.start;
                        if diff == u64::MAX {
                            return Err(ReadError::new(ReadErrorKind::InvalidSpan));
                        }
                        let len = diff + 1;
                        let too_long = match self.max_length {
                            Some(m) => len > m,
                            None => false,
                        };
                        let too_short = match self.min_length {
                            Some(m) => len < m,
                            None => false,
                        };
                        if !too_long && !too_short {
                            match find_by_id(&acc, &id) {
                                Some(_) => {
                                    // a record with this identifier exists: first wins
                                },
                                None => {
                                    let g = GeneRecord::new(id, domain.start, domain.end);
                                    acc.push(g);
                                    proof {
                                        assert(genes_view(acc@) =~= accv.push(
                                            GeneRecordV {
                                                id: idv,
                                                length: len,
                                                domains: Seq::empty(),
                                            },
                                        ));
                                        assert(distinct_ids(genes_view(acc@)));
                                    }
                                },
                            }
                        }
                    } else {
                        match find_by_id(&acc, &id) {
                            None => {
                                // child line with no prior parent: dropped
                            },
                            Some(j) => {
                                let mut g2 = acc[j].clone();
                                g2.push_domain(domain);
                                acc.set(j, g2);
                                proof {
                                    let jj = index_of_id(accv, idv);
                                    assert(accv[j as int].id == idv);
                                    assert(0 <= jj < accv.len() && accv[jj].id == idv);
                                    assert(jj == j as int);
                                    assert(genes_view(acc@) =~= append_domain(accv, idv, dv));
                                    assert(distinct_ids(genes_view(acc@)));
                                }
                            },
                        }
                    }
                }
            }
            i = i + 1;
        }
        let ghost recsv = genes_view(acc@);
        let mut out: Vec<GeneRecord> = Vec::new();
        let mut i: usize = 0;
        proof {
            assert(genes_view(out@) =~= Seq::<GeneRecordV>::empty());
        }
        while i < acc.len()
            invariant
                0 <= i <= acc@.len(),
                cfg == self@,
                recsv == genes_view(acc@),
                accumulate_spec(cfg, 0, Seq::empty()) == Ok::<_, ReadErrorKind>(recsv),
                post_filter_spec(cfg, recsv, 0, Seq::empty()) == post_filter_spec(
                    cfg,
                    recsv,
                    i as int,
                    genes_view(out@),
                ),
            decreases acc@.len() - i,
        {
            let ghost outv = genes_view(out@);
            let keep = match &self.domain_expr {
                None => true,
                Some(expr) => match expr.matches_domains(&acc[i]) {
                    Err(e) => {
                        return Err(ReadError::new(ReadErrorKind::Expression(e.kind)));
                    },
                    Ok(b) => b,
                },
            };
            if keep {
                match &self.source_expr {
                    None => {
                        out.push(acc[i].clone());
                        proof {
                            assert(genes_view(out@) =~= outv.push(recsv[i as int]));
                        }
                    },
                    Some(expr) => {
                        match acc[i].clone().prune_by_source(expr) {
                            Err(e) => {
                                return Err(
                                    ReadError::new(ReadErrorKind::Expression(e.kind)),
                                );
                            },
                            Ok(g) => {
                                let ghost gv = g@;
                                out.push(g);
                                proof {
                                    assert(genes_view(out@) =~= outv.push(gv));
                                }
                            },
                        }
                    },
                }
            }
            i = i + 1;
        }
        Ok(out)
    }
}

} // verus!
