//! The schema store logic: reading one table's definition document, checking
//! that it names the requested table, and listing all persisted schemas in
//! strictly increasing name order.

use vstd::prelude::*;

verus! {

use vstd::string::StrSliceExecFns;
use vstd::multiset::Multiset;
use crate::error::StorageError;

/// One column of a table: its name, its declared type rendered as text, and
/// whether it admits nulls.
#[derive(Debug, PartialEq)]
pub struct ColumnDef {
    pub name: String,
    pub data_type: String,
    pub nullable: bool,
}

/// A table's metadata as the query engine sees it. `column_defs` is absent
/// when no definition document exists for the table: the table is then
/// structurally present but untyped, which is distinct from the table being
/// absent. `indexes` and `engine` are carried for shape and are always empty
/// here.
#[derive(Debug, PartialEq)]
pub struct Schema {
    pub table_name: String,
    pub column_defs: Option<Vec<ColumnDef>>,
    pub indexes: Vec<String>,
    pub engine: Option<String>,
}

/// The mathematical shape of a column definition.
pub type ColV = (Seq<char>, Seq<char>, bool);

pub open spec fn col_view(c: ColumnDef) -> ColV {
    (c.name@, c.data_type@, c.nullable)
}

pub open spec fn cols_view(cs: Option<Vec<ColumnDef>>) -> Option<Seq<ColV>> {
    match cs {
        Some(v) => Some(v@.map_values(|c: ColumnDef| col_view(c))),
        None => None,
    }
}

/// The mathematical shape of a schema: name, columns, indexes, engine.
pub type SchemaV = (Seq<char>, Option<Seq<ColV>>, Seq<Seq<char>>, Option<Seq<char>>);

pub open spec fn schema_view(s: Schema) -> SchemaV {
    (
        s.table_name@,
        cols_view(s.column_defs),
        s.indexes@.map_values(|x: String| x@),
        match s.engine {
            Some(e) => Some(e@),
            None => None,
        },
    )
}

/// What parsing a definition document yields: the table name it declares and
/// its column definitions, or nothing when the text is not a well-formed
/// definition. Parsing is a function of the text alone.
pub uninterp spec fn ddl_schema(d: Seq<char>) -> Option<(Seq<char>, Option<Seq<ColV>>)>;

/// Relies on gluesql_core's `Schema::from_ddl` to parse a `CREATE TABLE`
/// document; the declared name and columns are read off the parsed schema,
/// each column type rendered as its SQL text.
#[verifier::external_body]
fn parse_ddl(ddl: &str) -> (r: Option<(String, Option<Vec<ColumnDef>>)>)
    ensures
        match r {
            Some(p) => ddl_schema(ddl@) == Some((p.0@, cols_view(p.1))),
            None => ddl_schema(ddl@) is None,
        },
{
    let s = gluesql_core::data::Schema::from_ddl(ddl).ok()?;
    let cols = s.column_defs.map(|cs| cs.into_iter()
        .map(|c| ColumnDef {
            name: c.name,
            data_type: c.data_type.to_string(),
            nullable: c.nullable,
        })
        .collect());
    Some((s.table_name, cols))
}

/// Resolves one table's schema from its definition document, if any.
///
/// With no document the table is reported as present but untyped. With a
/// document, the declared name must equal the requested one; a disagreement
/// is a `SchemaMismatch`, never a silent correction.
pub fn fetch_schema_from_ddl(table_name: &str, ddl: Option<&String>) -> (r: Result<
    Schema,
    StorageError,
>)
    ensures
        match r {
            Ok(s) => s.table_name@ == table_name@ && s.indexes@.len() == 0 && s.engine is None && (
            match ddl {
                None => s.column_defs is None,
                Some(d) => ddl_schema(d@) matches Some(q) && q.0 == table_name@ && cols_view(
                    s.column_defs,
                ) == q.1,
            }),
            Err(e) => ddl matches Some(d) && (match ddl_schema(d@) {
                None => e == StorageError::DefinitionParse,
                Some(q) => q.0 != table_name@ && e == StorageError::SchemaMismatch,
            }),
        },
{
    let column_defs: Option<Vec<ColumnDef>> = match ddl {
        None => None,
        Some(d) => match parse_ddl(d.as_str()) {
            None => {
                return Err(StorageError::DefinitionParse);
            }
            Some(p) => {
                if !str_eq(p.0.as_str(), table_name) {
                    return Err(StorageError::SchemaMismatch);
                }
                p.1
            }
        },
    };
    Ok(
        Schema {
            table_name: table_name.to_owned(),
            column_defs,
            indexes: Vec::new(),
            engine: None,
        },
    )
}

/// Character-for-character equality of two string slices.
pub fn str_eq(a: &str, b: &str) -> (r: bool)
    ensures
        r == (a@ == b@),
{
    let la = a.unicode_len();
    let lb = b.unicode_len();
    if la != lb {
        return false;
    }
    let mut i: usize = 0;
    while i < la
        invariant
            i <= la,
            la == a@.len(),
            la == b@.len(),
            forall|k: int| 0 <= k < i ==> a@[k] == b@[k],
        decreases la - i,
    {
        if a.get_char(i) != b.get_char(i) {
            return false;
        }
        i = i + 1;
    }
    proof {
        assert(a@ =~= b@);
    }
    true
}

/// Strict lexicographic order on character sequences: by the first differing
/// character's code point, a proper prefix coming first.
pub open spec fn lex_lt(a: Seq<char>, b: Seq<char>) -> bool
    decreases a.len(),
{
    if b.len() == 0 {
        false
    } else if a.len() == 0 {
        true
    } else if (a[0] as int) < (b[0] as int) {
        true
    } else if (a[0] as int) > (b[0] as int) {
        false
    } else {
        lex_lt(a.drop_first(), b.drop_first())
    }
}

/// Of two sequences, either one is strictly smaller or they are equal.
pub proof fn lemma_lex_connex(a: Seq<char>, b: Seq<char>)
    ensures
        lex_lt(a, b) || lex_lt(b, a) || a == b,
    decreases a.len(),
{
    if a.len() == 0 && b.len() == 0 {
        assert(a =~= b);
    } else if a.len() > 0 && b.len() > 0 {
        if (a[0] as int) == (b[0] as int) {
            assert(a[0] == b[0]);
            lemma_lex_connex(a.drop_first(), b.drop_first());
            if a.drop_first() == b.drop_first() {
                assert(a =~= b) by {
                    assert(a.drop_first().len() == b.drop_first().len());
                    assert(a.len() == b.len());
                    assert forall|k: int| 0 <= k < a.len() implies a[k] == b[k] by {
                        if k >= 1 {
                            assert(a.drop_first()[k - 1] == b.drop_first()[k - 1]);
                            assert(a.drop_first()[k - 1] == a[k]);
                            assert(b.drop_first()[k - 1] == b[k]);
                        }
                    }
                }
            }
        }
    }
}

/// Strict lexicographic order is transitive.
pub proof fn lemma_lex_trans(a: Seq<char>, b: Seq<char>, c: Seq<char>)
    requires
        lex_lt(a, b),
        lex_lt(b, c),
    ensures
        lex_lt(a, c),
    decreases a.len(),
{
    if a.len() > 0 && b.len() > 0 && c.len() > 0 {
        if (a[0] as int) == (b[0] as int) && (b[0] as int) == (c[0] as int) {
            lemma_lex_trans(a.drop_first(), b.drop_first(), c.drop_first());
        }
    }
}

/// Strict lexicographic comparison of two string slices.
pub fn str_lex_lt(a: &str, b: &str) -> (r: bool)
    ensures
        r == lex_lt(a@, b@),
{
    let la = a.unicode_len();
    let lb = b.unicode_len();
    let mut i: usize = 0;
    proof {
        assert(a@.subrange(0, la as int) =~= a@);
        assert(b@.subrange(0, lb as int) =~= b@);
    }
    while i < la && i < lb
        invariant
            i <= la,
            i <= lb,
            la == a@.len(),
            lb == b@.len(),
            lex_lt(a@, b@) == lex_lt(
                a@.subrange(i as int, la as int),
                b@.subrange(i as int, lb as int),
            ),
        decreases la - i,
    {
        let ca = a.get_char(i);
        let cb = b.get_char(i);
        let ua: u32 = ca as u32;
        let ub: u32 = cb as u32;
        let ghost sa = a@.subrange(i as int, la as int);
        let ghost sb = b@.subrange(i as int, lb as int);
        proof {
            assert(sa[0] == a@[i as int] && sb[0] == b@[i as int]);
        }
        if ua < ub {
            return true;
        }
        if ua > ub {
            return false;
        }
        proof {
            assert(sa[0] as int == sb[0] as int);
            assert(lex_lt(sa, sb) == lex_lt(sa.drop_first(), sb.drop_first()));
            assert(sa.drop_first() =~= a@.subrange(i as int + 1, la as int));
            assert(sb.drop_first() =~= b@.subrange(i as int + 1, lb as int));
        }
        i = i + 1;
    }
    proof {
        assert(a@.subrange(i as int, la as int).len() == la - i);
        assert(b@.subrange(i as int, lb as int).len() == lb - i);
    }
    i >= la && i < lb
}


/// The schemas of a sequence, as their mathematical shapes.
pub open spec fn views_of(v: Seq<Schema>) -> Seq<SchemaV> {
    v.map_values(|s: Schema| schema_view(s))
}

proof fn lemma_views_push(s: Seq<Schema>, x: Schema)
    ensures
        views_of(s.push(x)) =~= views_of(s).push(schema_view(x)),
{
    assert forall|k: int| 0 <= k < s.len() + 1 implies views_of(s.push(x))[k] == views_of(s).push(
        schema_view(x),
    )[k] by {
        if k < s.len() {
            assert(s.push(x)[k] == s[k]);
        } else {
            assert(s.push(x)[k] == x);
        }
    }
}

proof fn lemma_views_remove(s: Seq<Schema>, m: int)
    requires
        0 <= m < s.len(),
    ensures
        views_of(s.remove(m)) =~= views_of(s).remove(m),
{
    assert forall|k: int| 0 <= k < s.len() - 1 implies views_of(s.remove(m))[k] == views_of(
        s,
    ).remove(m)[k] by {
        if k < m {
            assert(s.remove(m)[k] == s[k]);
        } else {
            assert(s.remove(m)[k] == s[k + 1]);
        }
    }
}

proof fn lemma_insert_add_remove<V>(a: Multiset<V>, b: Multiset<V>, x: V)
    requires
        b.count(x) >= 1,
    ensures
        a.insert(x).add(b.remove(x)) == a.add(b),
{
    broadcast use vstd::multiset::group_multiset_axioms;

    assert(a.insert(x).add(b.remove(x)) =~= a.add(b));
}

/// Sorts schemas by table name. Names must be pairwise distinct; the result
/// is the same collection of schemas in strictly increasing name order.
pub fn sort_schemas(v: Vec<Schema>) -> (r: Vec<Schema>)
    requires
        forall|i: int, j: int|
            0 <= i < j < v@.len() ==> v@[i].table_name@ != v@[j].table_name@,
    ensures
        r@.len() == v@.len(),
        forall|i: int, j: int|
            0 <= i < j < r@.len() ==> lex_lt(r@[i].table_name@, r@[j].table_name@),
        views_of(r@).to_multiset() == views_of(v@).to_multiset(),
{
    broadcast use vstd::seq_lib::group_to_multiset_ensures;
    broadcast use vstd::multiset::group_multiset_axioms;

    let mut src = v;
    let mut out: Vec<Schema> = Vec::new();
    proof {
        assert(views_of(out@).to_multiset().add(views_of(src@).to_multiset()) =~= views_of(
            v@,
        ).to_multiset());
    }
    while src.len() > 0
        invariant
            out@.len() + src@.len() == v@.len(),
            forall|i: int, j: int|
                0 <= i < j < src@.len() ==> src@[i].table_name@ != src@[j].table_name@,
            forall|i: int, j: int|
                0 <= i < j < out@.len() ==> lex_lt(out@[i].table_name@, out@[j].table_name@),
            forall|i: int, j: int|
                0 <= i < out@.len() && 0 <= j < src@.len() ==> lex_lt(
                    out@[i].table_name@,
                    src@[j].table_name@,
                ),
            views_of(out@).to_multiset().add(views_of(src@).to_multiset()) == views_of(
                v@,
            ).to_multiset(),
        decreases src@.len(),
    {
        let mut m: usize = 0;
        let mut t: usize = 1;
        while t < src.len()
            invariant
                0 < src@.len(),
                m < t,
                t <= src@.len(),
                forall|j: int|
                    0 <= j < t ==> src@[m as int].table_name@ == src@[j].table_name@ || lex_lt(
                        src@[m as int].table_name@,
                        src@[j].table_name@,
                    ),
            decreases src@.len() - t,
        {
            let ghost mn = src@[m as int].table_name@;
            let ghost tn = src@[t as int].table_name@;
            if str_lex_lt(src[t].table_name.as_str(), src[m].table_name.as_str()) {
                proof {
                    assert forall|j: int|
                        0 <= j < t + 1 implies src@[t as int].table_name@ == src@[j].table_name@
                        || lex_lt(src@[t as int].table_name@, src@[j].table_name@) by {
                        if j < t {
                            if mn == src@[j].table_name@ {
                            } else {
                                lemma_lex_trans(tn, mn, src@[j].table_name@);
                            }
                        }
                    }
                }
                m = t;
            } else {
                proof {
                    lemma_lex_connex(mn, tn);
                }
            }
            t = t + 1;
        }
        let ghost old_src = src@;
        let ghost old_out = out@;
        let x = src.remove(m);
        let ghost xv = schema_view(x);
        proof {
            lemma_views_remove(old_src, m as int);
            assert(views_of(old_src)[m as int] == xv);
            assert(views_of(old_src).contains(xv));
            assert(views_of(src@).to_multiset() =~= views_of(old_src).to_multiset().remove(xv)) by {
                assert(views_of(src@) =~= views_of(old_src).remove(m as int));
                views_of(old_src).to_multiset_ensures();
                assert(views_of(old_src).remove(m as int).to_multiset() =~= views_of(
                    old_src,
                ).to_multiset().remove(xv));
            }
        }
        out.push(x);
        proof {
            lemma_views_push(old_out, x);
            assert(views_of(out@).to_multiset() =~= views_of(old_out).to_multiset().insert(xv)) by {
                assert(views_of(out@) =~= views_of(old_out).push(xv));
                views_of(old_out).to_multiset_ensures();
                assert(views_of(old_out).push(xv).to_multiset() =~= views_of(
                    old_out,
                ).to_multiset().insert(xv));
            }
            views_of(old_src).to_multiset_ensures();
            assert(views_of(old_src)[m as int] == xv);
            assert(views_of(old_src).contains(xv));
            assert(views_of(old_src).to_multiset().count(xv) > 0);
            lemma_insert_add_remove(
                views_of(old_out).to_multiset(),
                views_of(old_src).to_multiset(),
                xv,
            );
            assert(views_of(out@).to_multiset().add(views_of(src@).to_multiset()) =~= views_of(
                old_out,
            ).to_multiset().add(views_of(old_src).to_multiset()));
            assert forall|i: int, j: int|
                0 <= i < out@.len() && 0 <= j < src@.len() implies lex_lt(
                out@[i].table_name@,
                src@[j].table_name@,
            ) by {
                let jj: int = if j < m { j } else { j + 1 };
                assert(src@[j] == old_src[jj]);
                if i < out@.len() - 1 {
                    assert(lex_lt(out@[i].table_name@, old_src[jj].table_name@));
                } else {
                    assert(out@[i] == x);
                    assert(x.table_name@ == old_src[m as int].table_name@ || lex_lt(
                        x.table_name@,
                        old_src[jj].table_name@,
                    ) || lex_lt(x.table_name@, old_src[jj].table_name@));
                    assert(old_src[m as int].table_name@ != old_src[jj].table_name@);
                    assert(x.table_name@ == old_src[m as int].table_name@);
                    assert(old_src[m as int].table_name@ == old_src[jj].table_name@ || lex_lt(
                        old_src[m as int].table_name@,
                        old_src[jj].table_name@,
                    ));
                }
            }
            assert forall|i: int, j: int|
                0 <= i < j < src@.len() implies src@[i].table_name@ != src@[j].table_name@ by {
                let ii: int = if i < m { i } else { i + 1 };
                let jj: int = if j < m { j } else { j + 1 };
                assert(src@[i] == old_src[ii] && src@[j] == old_src[jj]);
            }
        }
    }
    out
}


/// A listed definition file is good when its document parses and declares
/// the table the file is named after.
pub open spec fn source_ok(p: (Seq<char>, Seq<char>)) -> bool {
    match ddl_schema(p.1) {
        Some(q) => q.0 == p.0,
        None => false,
    }
}

/// The schema a good definition file resolves to.
pub open spec fn source_schema(p: (Seq<char>, Seq<char>)) -> SchemaV {
    (
        p.0,
        match ddl_schema(p.1) {
            Some(q) => q.1,
            None => None,
        },
        Seq::empty(),
        None,
    )
}

/// The schemas of a listing of definition files.
pub open spec fn source_views(s: Seq<(String, String)>) -> Seq<SchemaV> {
    s.map_values(|p: (String, String)| source_schema((p.0@, p.1@)))
}

/// The error a faulty definition file draws: a document that does not parse
/// fails the parse; one that parses but names another table is a mismatch.
pub open spec fn source_error(p: (Seq<char>, Seq<char>)) -> StorageError {
    match ddl_schema(p.1) {
        None => StorageError::DefinitionParse,
        Some(_) => StorageError::SchemaMismatch,
    }
}

/// The file at `k` is the first faulty one of the listing.
pub open spec fn first_bad_source(s: Seq<(String, String)>, k: int) -> bool {
    &&& 0 <= k < s.len()
    &&& !source_ok((s[k].0@, s[k].1@))
    &&& forall|j: int| 0 <= j < k ==> #[trigger] source_ok((s[j].0@, s[j].1@))
}

/// Resolves every listed definition file to its schema and returns the
/// schemas sorted by table name, strictly increasing. `sources` holds, for
/// each definition file, its base name and its text; base names of distinct
/// files are distinct.
pub fn fetch_all_schemas_from(sources: &Vec<(String, String)>) -> (r: Result<
    Vec<Schema>,
    StorageError,
>)
    requires
        forall|i: int, j: int|
            0 <= i < j < sources@.len() ==> sources@[i].0@ != sources@[j].0@,
    ensures
        match r {
            Ok(v) => (forall|k: int|
                0 <= k < sources@.len() ==> source_ok((sources@[k].0@, sources@[k].1@)))
                && v@.len() == sources@.len() && (forall|i: int, j: int|
                0 <= i < j < v@.len() ==> lex_lt(v@[i].table_name@, v@[j].table_name@))
                && views_of(v@).to_multiset() == source_views(sources@).to_multiset(),
            Err(e) => exists|k: int|
                #[trigger] first_bad_source(sources@, k) && e == source_error(
                    (sources@[k].0@, sources@[k].1@),
                ),
        },
{
    let mut schemas: Vec<Schema> = Vec::new();
    let mut i: usize = 0;
    proof {
        assert(views_of(schemas@) =~= source_views(sources@.subrange(0, 0)));
    }
    while i < sources.len()
        invariant
            i <= sources@.len(),
            schemas@.len() == i,
            forall|k: int| 0 <= k < i ==> source_ok((sources@[k].0@, sources@[k].1@)),
            forall|k: int| 0 <= k < i ==> schemas@[k].table_name@ == sources@[k].0@,
            views_of(schemas@) == source_views(sources@.subrange(0, i as int)),
            forall|a: int, b: int|
                0 <= a < b < sources@.len() ==> sources@[a].0@ != sources@[b].0@,
        decreases sources@.len() - i,
    {
        let ghost old_views = views_of(schemas@);
        let s = match fetch_schema_from_ddl(sources[i].0.as_str(), Some(&sources[i].1)) {
            Ok(s) => s,
            Err(e) => {
                proof {
                    assert(first_bad_source(sources@, i as int));
                }
                return Err(e);
            }
        };
        proof {
            assert(schema_view(s) == source_schema((sources@[i as int].0@, sources@[i as int].1@)))
                by {
                assert(s.indexes@.map_values(|x: String| x@) =~= Seq::<Seq<char>>::empty());
            }
        }
        schemas.push(s);
        proof {
            lemma_views_push(schemas@.drop_last(), s);
            assert(views_of(schemas@) =~= source_views(sources@.subrange(0, i as int + 1))) by {
                assert(schemas@.drop_last() =~= schemas@.subrange(0, schemas@.len() - 1));
                assert forall|k: int|
                    0 <= k < i + 1 implies views_of(schemas@)[k] == source_views(
                    sources@.subrange(0, i as int + 1),
                )[k] by {
                    assert(sources@.subrange(0, i as int + 1)[k] == sources@[k]);
                    if k < i {
                        assert(views_of(schemas@)[k] == old_views[k]);
                        assert(source_views(sources@.subrange(0, i as int))[k] == source_schema(
                            (sources@[k].0@, sources@[k].1@),
                        ));
                    } else {
                        assert(schemas@[k] == s);
                    }
                }
            }
        }
        i = i + 1;
    }
    proof {
        assert(sources@.subrange(0, sources@.len() as int) =~= sources@);
    }
    let sorted = sort_schemas(schemas);
    Ok(sorted)
}

} // verus!
