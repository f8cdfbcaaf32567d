//! Parent and child annotation records: the two-level record model, the
//! source-name pruning of children, and the text projections.

use vstd::prelude::*;

use crate::ast::{ParseError, ParseErrorKind};
use crate::expr::{expr_eval_spec, Expr};
use crate::strutil::{chars_of, chars_to_string, dec_of, push_dec, strings_view, strs_view, u64_string};
use vstd::pervasive::unreached;

verus! {

/// One annotation span under a parent record. A record whose source name
/// is the literal `.` is a parent marker, carrying the parent's span
/// instead of annotation data.
#[derive(Debug)]
pub struct DomainRecord {
    pub source: String,
    pub start: u64,
    pub end: u64,
    pub domain_name: String,
    pub domain_desc: String,
}

/// Mathematical form of a child record.
pub struct DomainRecordV {
    pub source: Seq<char>,
    pub start: u64,
    pub end: u64,
    pub domain_name: Seq<char>,
    pub domain_desc: Seq<char>,
}

impl View for DomainRecord {
    type V = DomainRecordV;

    open spec fn view(&self) -> DomainRecordV {
        DomainRecordV {
            source: self.source@,
            start: self.start,
            end: self.end,
            domain_name: self.domain_name@,
            domain_desc: self.domain_desc@,
        }
    }
}

impl Clone for DomainRecord {
    /// Field-wise copy; the mathematical record is unchanged.
    fn clone(&self) -> (r: Self)
        ensures
            r@ == self@,
    {
        DomainRecord {
            source: self.source.clone(),
            start: self.start,
            end: self.end,
            domain_name: self.domain_name.clone(),
            domain_desc: self.domain_desc.clone(),
        }
    }
}

impl DomainRecord {
    /// Builds a child record from its fields.
    pub fn new(source: String, start: u64, end: u64, domain_name: String, domain_desc: String) -> (r:
        Self)
        ensures
            r@ == (DomainRecordV {
                source: source@,
                start: start,
                end: end,
                domain_name: domain_name@,
                domain_desc: domain_desc@,
            }),
    {
        DomainRecord { source, start, end, domain_name, domain_desc }
    }

    /// Appends the one-line display form of the record.
    pub(crate) fn push_display(&self, out: &mut Vec<char>)
        ensures
            final(out)@ == old(out)@ + domain_display_spec(self@),
    {
        push_dec(self.start, out);
        out.push('-');
        push_dec(self.end, out);
        out.push(' ');
        let mut cs = chars_of(self.domain_name.as_str());
        out.append(&mut cs);
        out.push(' ');
        let mut cs = chars_of(self.domain_desc.as_str());
        out.append(&mut cs);
        proof {
            assert(out@ =~= old(out)@ + domain_display_spec(self@));
        }
    }

    /// The one-line display form of the record: span, name and
    /// description.
    pub fn to_display_string(&self) -> (r: String)
        ensures
            r@ == domain_display_spec(self@),
    {
        let mut out: Vec<char> = Vec::new();
        self.push_display(&mut out);
        proof {
            assert(out@ =~= domain_display_spec(self@));
        }
        chars_to_string(&out)
    }

    /// Whether this record is a parent marker line: its source name is the
    /// literal `.`.
    pub fn is_gene(&self) -> (r: bool)
        ensures
            r == (self@.source == seq!['.']),
    {
        let dot: String = ".".to_owned();
        proof {
            reveal_strlit(".");
            assert(dot@ =~= seq!['.']);
        }
        self.source == dot
    }
}

/// The one-line display form of a child record: span, name and
/// description.
pub open spec fn domain_display_spec(d: DomainRecordV) -> Seq<char> {
    dec_of(d.start as nat) + seq!['-'] + dec_of(d.end as nat) + seq![' '] + d.domain_name + seq![
        ' ',
    ] + d.domain_desc
}

/// The views of a sequence of child records.
pub open spec fn domains_view(ds: Seq<DomainRecord>) -> Seq<DomainRecordV> {
    ds.map_values(|d: DomainRecord| d@)
}

/// The annotation names of a sequence of child records.
pub open spec fn domain_names(ds: Seq<DomainRecordV>) -> Seq<Seq<char>> {
    ds.map_values(|d: DomainRecordV| d.domain_name)
}

/// The views of a sequence of parent records.
pub open spec fn genes_view(gs: Seq<GeneRecord>) -> Seq<GeneRecordV> {
    gs.map_values(|g: GeneRecord| g@)
}

/// A parent record: its identifier, the length derived from the parent
/// marker line, and its child records in input order.
#[derive(Debug)]
pub struct GeneRecord {
    pub id: String,
    pub length: u64,
    pub domains: Vec<DomainRecord>,
}

/// Mathematical form of a parent record.
pub struct GeneRecordV {
    pub id: Seq<char>,
    pub length: u64,
    pub domains: Seq<DomainRecordV>,
}

impl View for GeneRecord {
    type V = GeneRecordV;

    open spec fn view(&self) -> GeneRecordV {
        GeneRecordV { id: self.id@, length: self.length, domains: domains_view(self.domains@) }
    }
}

impl Clone for GeneRecord {
    /// Deep copy; the mathematical record is unchanged.
    fn clone(&self) -> (r: Self)
        ensures
            r@ == self@,
    {
        let mut ds: Vec<DomainRecord> = Vec::new();
        let mut i: usize = 0;
        while i < self.domains.len()
            invariant
                0 <= i <= self.domains@.len(),
                ds@.len() == i,
                forall|j: int| 0 <= j < i ==> ds@[j]@ == self.domains@[j]@,
            decreases self.domains@.len() - i,
        {
            ds.push(self.domains[i].clone());
            i = i + 1;
        }
        let r = GeneRecord { id: self.id.clone(), length: self.length, domains: ds };
        proof {
            assert(r@.domains =~= self@.domains);
        }
        r
    }
}

/// Prunes child records to those whose source name satisfies the
/// constraint; the first evaluation error aborts the pruning.
pub open spec fn prune_domains_spec(ev: Option<crate::ast::NodeV>, ds: Seq<DomainRecordV>) -> Result<
    Seq<DomainRecordV>,
    ParseErrorKind,
>
    decreases ds.len(),
{
    if ds.len() == 0 {
        Ok(Seq::empty())
    } else {
        match prune_domains_spec(ev, ds.drop_last()) {
            Err(k) => Err(k),
            Ok(rest) => match expr_eval_spec(ev, seq![ds.last().source]) {
                Err(k) => Err(k),
                Ok(true) => Ok(rest.push(ds.last())),
                Ok(false) => Ok(rest),
            },
        }
    }
}

/// Once pruning has failed on a prefix, the whole pruning fails the same
/// way.
proof fn lemma_prune_err_extends(ev: Option<crate::ast::NodeV>, ds: Seq<DomainRecordV>, i: int)
    requires
        0 <= i <= ds.len(),
        prune_domains_spec(ev, ds.take(i)) is Err,
    ensures
        prune_domains_spec(ev, ds) == prune_domains_spec(ev, ds.take(i)),
    decreases ds.len() - i,
{
    if i == ds.len() {
        assert(ds.take(i) =~= ds);
    } else {
        assert(ds.take(i + 1).drop_last() =~= ds.take(i));
        lemma_prune_err_extends(ev, ds, i + 1);
    }
}

/// The summary row of the delimited-text form: the identifier, dot
/// placeholders, a zero start, and the derived length.
pub open spec fn tsv_header_row(g: GeneRecordV) -> Seq<char> {
    g.id + seq!['\t', '.', '\t', '.', '\t', '.', '\t', '0', '\t'] + dec_of(g.length as nat)
}

/// The delimited-text row of one child: identifier, source, name,
/// description and span, separated by tabs.
pub open spec fn tsv_domain_row(id: Seq<char>, d: DomainRecordV) -> Seq<char> {
    id + seq!['\t'] + d.source + seq!['\t'] + d.domain_name + seq!['\t'] + d.domain_desc + seq![
        '\t',
    ] + dec_of(d.start as nat) + seq!['\t'] + dec_of(d.end as nat)
}

/// The child rows of the delimited-text form from position `i` on, each
/// preceded by a line break.
pub open spec fn tsv_rows(g: GeneRecordV, i: int) -> Seq<char>
    decreases g.domains.len() - i,
{
    if i < 0 || i >= g.domains.len() {
        Seq::empty()
    } else {
        seq!['\n'] + tsv_domain_row(g.id, g.domains[i]) + tsv_rows(g, i + 1)
    }
}

/// The whole delimited-text form of a record.
pub open spec fn tsv_line_spec(g: GeneRecordV) -> Seq<char> {
    tsv_header_row(g) + tsv_rows(g, 0)
}

/// The headline of a parent record's display form.
pub open spec fn gene_display_header(g: GeneRecordV) -> Seq<char> {
    seq!['-', '-', '-', ' ', 'i', 'd', ':', ' '] + g.id + seq![
        ',',
        ' ',
        'l',
        'e',
        'n',
        'g',
        't',
        'h',
        ' ',
    ] + dec_of(g.length as nat) + seq![' ', '-', '-', '-']
}

/// The display rows of the children from position `i` on, each preceded
/// by a line break.
pub open spec fn gene_display_rows(g: GeneRecordV, i: int) -> Seq<char>
    decreases g.domains.len() - i,
{
    if i < 0 || i >= g.domains.len() {
        Seq::empty()
    } else {
        seq!['\n'] + domain_display_spec(g.domains[i]) + gene_display_rows(g, i + 1)
    }
}

/// The display form of a parent record: the headline, a line break, and
/// the children's display lines.
pub open spec fn gene_display_spec(g: GeneRecordV) -> Seq<char> {
    gene_display_header(g) + if g.domains.len() == 0 {
        seq!['\n']
    } else {
        gene_display_rows(g, 0)
    }
}

/// The cells of the tabular summary row.
pub open spec fn table_header_cells(g: GeneRecordV) -> Seq<Seq<char>> {
    seq![g.id, seq!['.'], seq!['.'], seq!['.'], seq!['0'], dec_of(g.length as nat)]
}

/// The cells of one child's tabular row.
pub open spec fn table_domain_cells(id: Seq<char>, d: DomainRecordV) -> Seq<Seq<char>> {
    seq![
        id,
        d.source,
        d.domain_name,
        d.domain_desc,
        dec_of(d.start as nat),
        dec_of(d.end as nat),
    ]
}

/// The tabular form of a record: the summary row, then one row per child.
pub open spec fn table_rows_spec(g: GeneRecordV) -> Seq<Seq<Seq<char>>> {
    seq![table_header_cells(g)] + g.domains.map_values(
        |d: DomainRecordV| table_domain_cells(g.id, d),
    )
}

/// The cell texts of a sequence of rows.
pub open spec fn rows_view(rs: Seq<Vec<String>>) -> Seq<Seq<Seq<char>>> {
    rs.map_values(|row: Vec<String>| strings_view(row@))
}

impl GeneRecord {
    /// Builds a parent record with no children; the length is derived once
    /// from the marker line's inclusive span.
    pub fn new(id: String, start: u64, end: u64) -> (r: Self)
        requires
            start <= end,
            end - start < u64::MAX,
        ensures
            r@.id == id@,
            r@.length == end - start + 1,
            r@.domains == Seq::<DomainRecordV>::empty(),
    {
        let r = GeneRecord { id, length: end - start + 1, domains: Vec::new() };
        proof {
            assert(r@.domains =~= Seq::<DomainRecordV>::empty());
        }
        r
    }

    /// Appends a child record.
    pub fn push_domain(&mut self, domain: DomainRecord)
        ensures
            final(self)@.id == old(self)@.id,
            final(self)@.length == old(self)@.length,
            final(self)@.domains == old(self)@.domains.push(domain@),
    {
        let ghost dv = domain@;
        self.domains.push(domain);
        proof {
            assert(self@.domains =~= old(self)@.domains.push(dv));
        }
    }

    /// The child records, in input order.
    pub fn iter_domains(&self) -> (r: &Vec<DomainRecord>)
        ensures
            r@ == self.domains@,
            domains_view(r@) == self@.domains,
    {
        &self.domains
    }

    /// Prunes the children by the source-name constraint, returning the
    /// first evaluation error instead of a record.
    pub(crate) fn prune_by_source(self, expr: &Expr) -> (r: Result<Self, ParseError>)
        ensures
            match prune_domains_spec(expr@, self@.domains) {
                Ok(ds) => {
                    &&& r matches Ok(g)
                    &&& g@.id == self@.id
                    &&& g@.length == self@.length
                    &&& g@.domains == ds
                },
                Err(k) => r matches Err(e) && e.kind == k,
            },
    {
        let ghost dsv = self@.domains;
        let mut kept: Vec<DomainRecord> = Vec::new();
        let mut i: usize = 0;
        proof {
            assert(dsv.take(0) =~= Seq::<DomainRecordV>::empty());
            assert(domains_view(kept@) =~= Seq::<DomainRecordV>::empty());
        }
        while i < self.domains.len()
            invariant
                0 <= i <= self.domains@.len(),
                dsv == domains_view(self.domains@),
                prune_domains_spec(expr@, dsv.take(i as int)) == Ok::<_, ParseErrorKind>(
                    domains_view(kept@),
                ),
            decreases self.domains@.len() - i,
        {
            let d = &self.domains[i];
            let tags: Vec<&str> = vec![d.source.as_str()];
            proof {
                assert(strs_view(tags@) =~= seq![dsv[i as int].source]);
                assert(dsv.take(i as int + 1).drop_last() =~= dsv.take(i as int));
                assert(dsv.take(i as int + 1).last() == dsv[i as int]);
            }
            match expr.matches(tags.as_slice()) {
                Err(e) => {
                    proof {
                        lemma_prune_err_extends(expr@, dsv, i as int + 1);
                    }
                    return Err(e);
                },
                Ok(true) => {
                    kept.push(d.clone());
                    proof {
                        assert(domains_view(kept@) =~= prune_domains_spec(
                            expr@,
                            dsv.take(i as int + 1),
                        )->Ok_0);
                    }
                },
                Ok(false) => {},
            }
            i = i + 1;
        }
        proof {
            assert(dsv.take(self.domains@.len() as int) =~= dsv);
        }
        let r = GeneRecord { id: self.id, length: self.length, domains: kept };
        Ok(r)
    }

    /// The delimited-text form of the record: one summary row for the
    /// parent, then one row per child, joined by line breaks.
    pub fn to_tsv_line(&self) -> (r: String)
        ensures
            r@ == tsv_line_spec(self@),
    {
        let ghost gv = self@;
        let mut out: Vec<char> = chars_of(self.id.as_str());
        out.push('\t');
        out.push('.');
        out.push('\t');
        out.push('.');
        out.push('\t');
        out.push('.');
        out.push('\t');
        out.push('0');
        out.push('\t');
        push_dec(self.length, &mut out);
        proof {
            assert(out@ =~= tsv_header_row(gv));
        }
        let mut i: usize = 0;
        proof {
            assert(out@ + tsv_rows(gv, 0) =~= tsv_line_spec(gv));
        }
        while i < self.domains.len()
            invariant
                0 <= i <= self.domains@.len(),
                gv == self@,
                tsv_line_spec(gv) == out@ + tsv_rows(gv, i as int),
            decreases self.domains@.len() - i,
        {
            let ghost pre = out@;
            let d = &self.domains[i];
            out.push('\n');
            let mut cs = chars_of(self.id.as_str());
            out.append(&mut cs);
            out.push('\t');
            let mut cs = chars_of(d.source.as_str());
            out.append(&mut cs);
            out.push('\t');
            let mut cs = chars_of(d.domain_name.as_str());
            out.append(&mut cs);
            out.push('\t');
            let mut cs = chars_of(d.domain_desc.as_str());
            out.append(&mut cs);
            out.push('\t');
            push_dec(d.start, &mut out);
            out.push('\t');
            push_dec(d.end, &mut out);
            proof {
                assert(gv.domains[i as int] == self.domains@[i as int]@);
                assert(out@ =~= pre + (seq!['\n'] + tsv_domain_row(gv.id, gv.domains[i as int])));
                assert(out@ + tsv_rows(gv, i as int + 1) =~= pre + tsv_rows(gv, i as int));
            }
            i = i + 1;
        }
        proof {
            assert(out@ =~= tsv_line_spec(gv));
        }
        chars_to_string(&out)
    }

    /// The display form of the record: a headline with the identifier
    /// and length, then one line per child.
    pub fn to_display_string(&self) -> (r: String)
        ensures
            r@ == gene_display_spec(self@),
    {
        let ghost gv = self@;
        let mut out: Vec<char> = chars_of("--- id: ");
        let mut cs = chars_of(self.id.as_str());
        out.append(&mut cs);
        let mut cs = chars_of(", length ");
        out.append(&mut cs);
        push_dec(self.length, &mut out);
        let mut cs = chars_of(" ---");
        out.append(&mut cs);
        proof {
            reveal_strlit("--- id: ");
            reveal_strlit(", length ");
            reveal_strlit(" ---");
            assert(out@ =~= gene_display_header(gv));
        }
        if self.domains.len() == 0 {
            out.push('\n');
            proof {
                assert(out@ =~= gene_display_spec(gv));
            }
        } else {
            let mut i: usize = 0;
            proof {
                assert(out@ + gene_display_rows(gv, 0) =~= gene_display_spec(gv));
            }
            while i < self.domains.len()
                invariant
                    0 <= i <= self.domains@.len(),
                    gv == self@,
                    gene_display_spec(gv) == out@ + gene_display_rows(gv, i as int),
                decreases self.domains@.len() - i,
            {
                let ghost pre = out@;
                out.push('\n');
                self.domains[i].push_display(&mut out);
                proof {
                    assert(gv.domains[i as int] == self.domains@[i as int]@);
                    assert(out@ =~= pre + (seq!['\n'] + domain_display_spec(
                        gv.domains[i as int],
                    )));
                    assert(out@ + gene_display_rows(gv, i as int + 1) =~= pre
                        + gene_display_rows(gv, i as int));
                }
                i = i + 1;
            }
        }
        proof {
            assert(out@ =~= gene_display_spec(gv));
        }
        chars_to_string(&out)
    }

    /// The delimited-text form of the record; a synonym of
    /// `to_tsv_line`.
    pub fn to_tsv_record(&self) -> (r: String)
        ensures
            r@ == tsv_line_spec(self@),
    {
        self.to_tsv_line()
    }

    /// The tabular form of the record: the same fields as the
    /// delimited-text form, structured as rows of cells.
    pub fn to_table_row(&self) -> (r: Vec<Vec<String>>)
        ensures
            rows_view(r@) == table_rows_spec(self@),
    {
        let ghost gv = self@;
        let mut out: Vec<Vec<String>> = Vec::new();
        let mut header: Vec<String> = Vec::new();
        header.push(self.id.clone());
        header.push(".".to_owned());
        header.push(".".to_owned());
        header.push(".".to_owned());
        header.push("0".to_owned());
        header.push(u64_string(self.length));
        proof {
            reveal_strlit(".");
            reveal_strlit("0");
            assert(strings_view(header@) =~~= table_header_cells(gv));
        }
        out.push(header);
        proof {
            assert(rows_view(out@) =~~= table_rows_spec(gv).take(1));
        }
        let mut i: usize = 0;
        while i < self.domains.len()
            invariant
                0 <= i <= self.domains@.len(),
                gv == self@,
                rows_view(out@) == table_rows_spec(gv).take(i as int + 1),
            decreases self.domains@.len() - i,
        {
            let ghost pre = rows_view(out@);
            let d = &self.domains[i];
            let mut row: Vec<String> = Vec::new();
            row.push(self.id.clone());
            row.push(d.source.clone());
            row.push(d.domain_name.clone());
            row.push(d.domain_desc.clone());
            row.push(u64_string(d.start));
            row.push(u64_string(d.end));
            proof {
                assert(gv.domains[i as int] == self.domains@[i as int]@);
                assert(strings_view(row@) =~~= table_domain_cells(gv.id, gv.domains[i as int]));
            }
            out.push(row);
            proof {
                let spec_rows = table_rows_spec(gv);
                assert(spec_rows.len() == 1 + gv.domains.len());
                assert(spec_rows[i as int + 1] == table_domain_cells(gv.id, gv.domains[i as int]));
                assert(rows_view(out@) =~= pre.push(strings_view(row@)));
                assert(spec_rows.take(i as int + 2) =~= spec_rows.take(i as int + 1).push(
                    spec_rows[i as int + 1],
                ));
                assert(rows_view(out@) =~= spec_rows.take(i as int + 2));
            }
            i = i + 1;
        }
        proof {
            assert(table_rows_spec(gv).take(self.domains@.len() as int + 1) =~~= table_rows_spec(
                gv,
            ));
        }
        out
    }

    /// Keeps only the children whose source name satisfies the constraint;
    /// an absent constraint keeps the record unchanged. An expression whose
    /// evaluation fails on one of the source names is outside this
    /// function's contract; the reader reports such errors instead.
    pub fn filter_by_source_expr(self, source_expr: &Option<Expr>) -> (r: Self)
        requires
            source_expr matches Some(e) ==> prune_domains_spec(e@, self@.domains) is Ok,
        ensures
            match source_expr {
                None => r@ == self@,
                Some(e) => {
                    &&& r@.id == self@.id
                    &&& r@.length == self@.length
                    &&& Ok::<_, ParseErrorKind>(r@.domains) == prune_domains_spec(
                        e@,
                        self@.domains,
                    )
                },
            },
    {
        match source_expr {
            None => self,
            Some(expr) => match self.prune_by_source(expr) {
                Ok(g) => g,
                Err(_) => unreached(),
            },
        }
    }
}

} // verus!
