//! The schema model: column types, their SQL keywords, column definitions,
//! table schemas, the validity rules that gate table creation, and the JSON
//! form in which a schema is carried inside table metadata.

use vstd::prelude::*;
use crate::error::DeltaError;
use crate::json::{
    e_bool, e_jstr, e_lit, enc_bool, enc_jstr, lemma_p_bool_enc, lemma_p_jstr_enc, lemma_p_lit,
    p_bool, p_jstr, p_lit, push_jstr,
};
use crate::text::{chars_eq, chars_of_str, push_str_chars, string_from_chars};

verus! {

// ---------------------------------------------------------------------------
// column types and their SQL keywords
// ---------------------------------------------------------------------------

/// The column types a table can declare.
#[derive(Clone, Copy, Debug, PartialEq, Eq, Structural)]
pub enum DeltaTableType {
    String,
    Long,
    Integer,
    Short,
    Byte,
    Float,
    Double,
    Boolean,
    Date,
    Timestamp,
}

/// The fixed struct tag a schema carries on the wire.
#[derive(Clone, Copy, Debug, PartialEq, Eq, Structural)]
pub enum DeltaTableStructType {
    Struct,
}

/// Upper-case folding of one ASCII letter; anything else is untouched.
pub open spec fn upper_char(c: char) -> char {
    if 97 <= c as u32 && c as u32 <= 122 {
        ((c as u32 - 32) as u8) as char
    } else {
        c
    }
}

pub open spec fn upper_ascii(s: Seq<char>) -> Seq<char> {
    s.map_values(|c: char| upper_char(c))
}

/// Which type a SQL keyword names; matching is case-insensitive.
pub open spec fn spec_sql_keyword_type(s: Seq<char>) -> Option<DeltaTableType> {
    let u = upper_ascii(s);
    if u == ("TEXT")@ {
        Some(DeltaTableType::String)
    } else if u == ("BIGINT")@ {
        Some(DeltaTableType::Long)
    } else if u == ("INT")@ {
        Some(DeltaTableType::Integer)
    } else if u == ("SMALLINT")@ {
        Some(DeltaTableType::Short)
    } else if u == ("TINYINT")@ {
        Some(DeltaTableType::Byte)
    } else if u == ("FLOAT")@ {
        Some(DeltaTableType::Float)
    } else if u == ("DOUBLE")@ {
        Some(DeltaTableType::Double)
    } else if u == ("BOOL")@ {
        Some(DeltaTableType::Boolean)
    } else if u == ("DATE")@ {
        Some(DeltaTableType::Date)
    } else if u == ("TIMESTAMP")@ {
        Some(DeltaTableType::Timestamp)
    } else {
        None
    }
}

/// The lower-case tag a type carries on the wire.
pub open spec fn type_tag(t: DeltaTableType) -> Seq<char> {
    match t {
        DeltaTableType::String => ("string")@,
        DeltaTableType::Long => ("long")@,
        DeltaTableType::Integer => ("integer")@,
        DeltaTableType::Short => ("short")@,
        DeltaTableType::Byte => ("byte")@,
        DeltaTableType::Float => ("float")@,
        DeltaTableType::Double => ("double")@,
        DeltaTableType::Boolean => ("boolean")@,
        DeltaTableType::Date => ("date")@,
        DeltaTableType::Timestamp => ("timestamp")@,
    }
}

/// The type a wire tag names, exactly as the encoder writes it.
pub open spec fn tag_type(v: Seq<char>) -> Option<DeltaTableType> {
    if v == ("string")@ {
        Some(DeltaTableType::String)
    } else if v == ("long")@ {
        Some(DeltaTableType::Long)
    } else if v == ("integer")@ {
        Some(DeltaTableType::Integer)
    } else if v == ("short")@ {
        Some(DeltaTableType::Short)
    } else if v == ("byte")@ {
        Some(DeltaTableType::Byte)
    } else if v == ("float")@ {
        Some(DeltaTableType::Float)
    } else if v == ("double")@ {
        Some(DeltaTableType::Double)
    } else if v == ("boolean")@ {
        Some(DeltaTableType::Boolean)
    } else if v == ("date")@ {
        Some(DeltaTableType::Date)
    } else if v == ("timestamp")@ {
        Some(DeltaTableType::Timestamp)
    } else {
        None
    }
}

proof fn reveal_tags()
    ensures
        ("string")@.len() == 6 && ("long")@.len() == 4 && ("integer")@.len() == 7 && (
        "short")@.len() == 5 && ("byte")@.len() == 4 && ("float")@.len() == 5 && (
        "double")@.len() == 6 && ("boolean")@.len() == 7 && ("date")@.len() == 4 && (
        "timestamp")@.len() == 9,
        ("long")@[0] == 'l' && ("byte")@[0] == 'b' && ("date")@[0] == 'd',
        ("float")@[0] == 'f' && ("short")@[0] == 's',
        ("string")@[0] == 's' && ("double")@[0] == 'd',
        ("integer")@[0] == 'i' && ("boolean")@[0] == 'b',
{
    reveal_strlit("string");
    reveal_strlit("long");
    reveal_strlit("integer");
    reveal_strlit("short");
    reveal_strlit("byte");
    reveal_strlit("float");
    reveal_strlit("double");
    reveal_strlit("boolean");
    reveal_strlit("date");
    reveal_strlit("timestamp");
}

/// Reading back the tag the encoder wrote gives the type it encodes.
pub proof fn lemma_tag_type(t: DeltaTableType)
    ensures
        tag_type(type_tag(t)) == Some(t),
{
    reveal_tags();
}

impl DeltaTableType {
    /// Resolves a SQL type keyword, case-insensitively; an unknown keyword
    /// is an `InvalidColumnType` failure.
    pub fn from_sql_type(sql_type: &str) -> (r: Result<DeltaTableType, DeltaError>)
        ensures
            match r {
                Ok(t) => spec_sql_keyword_type(sql_type@) == Some(t),
                Err(e) => spec_sql_keyword_type(sql_type@) is None && e
                    == DeltaError::InvalidColumnType,
            },
    {
        let cs = chars_of_str(sql_type);
        let mut up: Vec<char> = Vec::new();
        let mut i: usize = 0;
        while i < cs.len()
            invariant
                i <= cs@.len(),
                cs@ == sql_type@,
                up@ == upper_ascii(cs@.take(i as int)),
            decreases cs@.len() - i,
        {
            let c = cs[i];
            let u = c as u32;
            if 97 <= u && u <= 122 {
                up.push(((u - 32) as u8) as char);
            } else {
                up.push(c);
            }
            i = i + 1;
            proof {
                assert(up@ =~= upper_ascii(cs@.take(i as int)));
            }
        }
        proof {
            assert(cs@.take(cs@.len() as int) =~= cs@);
        }
        let k0 = chars_of_str("TEXT");
        if chars_eq(&up, &k0) {
            return Ok(DeltaTableType::String);
        }
        let k1 = chars_of_str("BIGINT");
        if chars_eq(&up, &k1) {
            return Ok(DeltaTableType::Long);
        }
        let k2 = chars_of_str("INT");
        if chars_eq(&up, &k2) {
            return Ok(DeltaTableType::Integer);
        }
        let k3 = chars_of_str("SMALLINT");
        if chars_eq(&up, &k3) {
            return Ok(DeltaTableType::Short);
        }
        let k4 = chars_of_str("TINYINT");
        if chars_eq(&up, &k4) {
            return Ok(DeltaTableType::Byte);
        }
        let k5 = chars_of_str("FLOAT");
        if chars_eq(&up, &k5) {
            return Ok(DeltaTableType::Float);
        }
        let k6 = chars_of_str("DOUBLE");
        if chars_eq(&up, &k6) {
            return Ok(DeltaTableType::Double);
        }
        let k7 = chars_of_str("BOOL");
        if chars_eq(&up, &k7) {
            return Ok(DeltaTableType::Boolean);
        }
        let k8 = chars_of_str("DATE");
        if chars_eq(&up, &k8) {
            return Ok(DeltaTableType::Date);
        }
        let k9 = chars_of_str("TIMESTAMP");
        if chars_eq(&up, &k9) {
            return Ok(DeltaTableType::Timestamp);
        }
        Err(DeltaError::InvalidColumnType)
    }
}

// ---------------------------------------------------------------------------
// column definitions and schemas
// ---------------------------------------------------------------------------

/// One column: a name, a declared type, a nullable flag and an opaque
/// metadata map, which this engine keeps empty.
#[derive(Debug, PartialEq, Eq, Clone)]
pub struct DeltaTableColumnDefinition {
    pub name: String,
    pub typ: DeltaTableType,
    pub nullable: bool,
    pub metadata: Vec<(String, String)>,
}

/// The mathematical shape of a column definition.
#[verifier::ext_equal]
pub struct ColumnView {
    pub name: Seq<char>,
    pub typ: DeltaTableType,
    pub nullable: bool,
    pub metadata: Seq<(Seq<char>, Seq<char>)>,
}

pub open spec fn pairs_view(v: Seq<(String, String)>) -> Seq<(Seq<char>, Seq<char>)> {
    v.map_values(|p: (String, String)| (p.0@, p.1@))
}

impl View for DeltaTableColumnDefinition {
    type V = ColumnView;

    open spec fn view(&self) -> ColumnView {
        ColumnView {
            name: self.name@,
            typ: self.typ,
            nullable: self.nullable,
            metadata: pairs_view(self.metadata@),
        }
    }
}

impl DeltaTableColumnDefinition {
    /// A column is valid iff it is not nullable; the metadata map is ignored.
    pub open spec fn spec_is_valid(self) -> bool {
        !self.nullable
    }
}

/// An ordered list of column definitions under the fixed struct tag.
#[derive(Debug, PartialEq, Eq, Clone)]
pub struct DeltaTableSchema {
    pub fields: Vec<DeltaTableColumnDefinition>,
    pub typ: DeltaTableStructType,
}

/// The mathematical shape of a schema: its columns, in order.
#[verifier::ext_equal]
pub struct SchemaView {
    pub fields: Seq<ColumnView>,
}

pub open spec fn cols_view(v: Seq<DeltaTableColumnDefinition>) -> Seq<ColumnView> {
    v.map_values(|c: DeltaTableColumnDefinition| c@)
}

impl View for DeltaTableSchema {
    type V = SchemaView;

    open spec fn view(&self) -> SchemaView {
        SchemaView { fields: cols_view(self.fields@) }
    }
}

/// Field names pairwise distinct and every field non-nullable.
pub open spec fn schema_valid(s: SchemaView) -> bool {
    &&& forall|i: int, j: int|
        0 <= i < j < s.fields.len() ==> (#[trigger] s.fields[i]).name != (
        #[trigger] s.fields[j]).name
    &&& forall|i: int| 0 <= i < s.fields.len() ==> !(#[trigger] s.fields[i]).nullable
}

/// The schema `from_sql` builds from resolved column specifications.
pub open spec fn schema_of_specs(specs: Seq<(Seq<char>, Seq<char>)>) -> SchemaView {
    SchemaView {
        fields: specs.map_values(
            |p: (Seq<char>, Seq<char>)|
                ColumnView {
                    name: p.0,
                    typ: spec_sql_keyword_type(p.1)->Some_0,
                    nullable: false,
                    metadata: Seq::empty(),
                },
        ),
    }
}

impl DeltaTableSchema {
    /// Builds a schema from `(name, sql type)` pairs, resolving each type by
    /// its keyword; the first unknown keyword fails the whole schema with
    /// `InvalidColumnType` and no partial schema is produced.
    pub fn from_sql(sql_schema: Vec<(String, String)>) -> (r: Result<DeltaTableSchema, DeltaError>)
        ensures
            match r {
                Ok(s) => (forall|i: int|
                    0 <= i < sql_schema@.len() ==> spec_sql_keyword_type(
                        pairs_view(sql_schema@)[i].1,
                    ) is Some) && s@ == schema_of_specs(pairs_view(sql_schema@)),
                Err(e) => (exists|i: int|
                    0 <= i < sql_schema@.len() && spec_sql_keyword_type(
                        #[trigger] pairs_view(sql_schema@)[i].1,
                    ) is None) && e == DeltaError::InvalidColumnType,
            },
    {
        let ghost specs = pairs_view(sql_schema@);
        let mut fields: Vec<DeltaTableColumnDefinition> = Vec::new();
        let mut i: usize = 0;
        while i < sql_schema.len()
            invariant
                i <= sql_schema@.len(),
                specs == pairs_view(sql_schema@),
                cols_view(fields@) =~~= schema_of_specs(specs.take(i as int)).fields,
                forall|k: int| 0 <= k < i ==> spec_sql_keyword_type(specs[k].1) is Some,
            decreases sql_schema@.len() - i,
        {
            let typ = match DeltaTableType::from_sql_type(sql_schema[i].1.as_str()) {
                Ok(t) => t,
                Err(e) => {
                    proof {
                        assert(spec_sql_keyword_type(specs[i as int].1) is None);
                    }
                    return Err(e);
                },
            };
            let name = sql_schema[i].0.clone();
            let ghost fields0 = fields@;
            fields.push(
                DeltaTableColumnDefinition { name, typ, nullable: false, metadata: Vec::new() },
            );
            proof {
                let k = i as int;
                assert(specs.len() == sql_schema@.len());
                assert(cols_view(fields0).len() == fields0.len());
                assert(schema_of_specs(specs.take(k)).fields.len() == specs.take(k).len());
                assert(fields0.len() == k);
                assert(fields@ == fields0.push(fields@.last()));
                assert(fields@.len() == k + 1);
                assert(specs[k] == (sql_schema@[k].0@, sql_schema@[k].1@));
                assert(fields@.last()@.name == specs[k].0);
                assert(fields@.last()@.typ == spec_sql_keyword_type(specs[k].1)->Some_0);
                assert(fields@.last()@.metadata =~~= Seq::<(Seq<char>, Seq<char>)>::empty());
                assert(specs.take(k + 1)[k] == specs[k]);
                assert(schema_of_specs(specs.take(k + 1)).fields[k] == (ColumnView {
                    name: specs[k].0,
                    typ: spec_sql_keyword_type(specs[k].1)->Some_0,
                    nullable: false,
                    metadata: Seq::empty(),
                }));
                assert(fields@.last()@ =~~= schema_of_specs(specs.take(k + 1)).fields[k]);
                assert forall|m: int| 0 <= m < k + 1 implies #[trigger] cols_view(fields@)[m]
                    == schema_of_specs(specs.take(k + 1)).fields[m] by {
                    if m < k {
                        assert(fields@[m] == fields0[m]);
                        assert(cols_view(fields@)[m] == cols_view(fields0)[m]);
                        assert(specs.take(k + 1)[m] == specs[m]);
                        assert(specs.take(k)[m] == specs[m]);
                        assert(schema_of_specs(specs.take(k + 1)).fields[m] == schema_of_specs(
                            specs.take(k),
                        ).fields[m]);
                    } else {
                        assert(cols_view(fields@)[m] == fields@.last()@);
                    }
                }
                assert(cols_view(fields@) =~~= schema_of_specs(specs.take(k + 1)).fields);
            }
            i = i + 1;
        }
        let r = DeltaTableSchema { fields, typ: DeltaTableStructType::Struct };
        proof {
            assert(specs.take(i as int) =~= specs);
            assert(r@ =~~= schema_of_specs(specs));
        }
        Ok(r)
    }

    /// True iff field names are pairwise distinct and every field is
    /// non-nullable.
    pub fn is_valid(&self) -> (r: bool)
        ensures
            r == schema_valid(self@),
    {
        let n = self.fields.len();
        let mut i: usize = 0;
        while i < n
            invariant
                n == self.fields@.len(),
                i <= n,
                forall|a: int, b: int|
                    0 <= a < b < i ==> (#[trigger] self@.fields[a]).name != (
                    #[trigger] self@.fields[b]).name,
                forall|a: int| 0 <= a < i ==> !(#[trigger] self@.fields[a]).nullable,
            decreases n - i,
        {
            if self.fields[i].nullable {
                proof {
                    assert(self@.fields[i as int].nullable);
                }
                return false;
            }
            let mut j: usize = 0;
            while j < i
                invariant
                    i < n,
                    n == self.fields@.len(),
                    j <= i,
                    forall|b: int|
                        0 <= b < j ==> (#[trigger] self@.fields[b]).name != self@.fields[i as int].name,
                decreases i - j,
            {
                if self.fields[j].name == self.fields[i].name {
                    proof {
                        assert(self@.fields[j as int].name == self@.fields[i as int].name);
                    }
                    return false;
                }
                j = j + 1;
            }
            i = i + 1;
        }
        true
    }

    /// The ordered column definitions.
    pub fn fields(&self) -> (r: &Vec<DeltaTableColumnDefinition>)
        ensures
            r == &self.fields,
    {
        &self.fields
    }
}

// ---------------------------------------------------------------------------
// wire form
// ---------------------------------------------------------------------------

/// One column as the log writes it.
pub open spec fn enc_col(c: ColumnView) -> Seq<char> {
    ("{\"name\":")@ + enc_jstr(c.name) + (",\"type\":")@ + enc_jstr(type_tag(c.typ)) + (
    ",\"nullable\":")@ + enc_bool(c.nullable) + (",\"metadata\":{}}")@
}

/// A comma-separated run of columns.
pub open spec fn enc_cols(cs: Seq<ColumnView>) -> Seq<char>
    decreases cs.len(),
{
    if cs.len() == 0 {
        Seq::empty()
    } else if cs.len() == 1 {
        enc_col(cs[0])
    } else {
        enc_col(cs[0]) + seq![','] + enc_cols(cs.skip(1))
    }
}

/// A whole schema as the log writes it.
pub open spec fn enc_schema(s: SchemaView) -> Seq<char> {
    ("{\"fields\":[")@ + enc_cols(s.fields) + ("],\"type\":\"struct\"}")@
}

/// Parses one column object.
pub open spec fn p_col(s: Seq<char>) -> Option<(ColumnView, Seq<char>)> {
    match p_lit(s, ("{\"name\":")@) {
        None => None,
        Some(r1) => match p_jstr(r1) {
            None => None,
            Some((name, r2)) => match p_lit(r2, (",\"type\":")@) {
                None => None,
                Some(r3) => match p_jstr(r3) {
                    None => None,
                    Some((tag, r4)) => match tag_type(tag) {
                        None => None,
                        Some(typ) => match p_lit(r4, (",\"nullable\":")@) {
                            None => None,
                            Some(r5) => match p_bool(r5) {
                                None => None,
                                Some((nullable, r6)) => match p_lit(r6, (",\"metadata\":{}}")@) {
                                    None => None,
                                    Some(r7) => Some(
                                        (
                                            ColumnView {
                                                name,
                                                typ,
                                                nullable,
                                                metadata: Seq::empty(),
                                            },
                                            r7,
                                        ),
                                    ),
                                },
                            },
                        },
                    },
                },
            },
        },
    }
}

/// Parses one or more comma-separated columns and the closing bracket.
pub open spec fn p_cols(s: Seq<char>) -> Option<(Seq<ColumnView>, Seq<char>)>
    decreases s.len(),
{
    match p_col(s) {
        None => None,
        Some((c, r)) => if r.len() > 0 && r[0] == ',' && r.len() < s.len() {
            match p_cols(r.skip(1)) {
                None => None,
                Some((cs, r2)) => Some((seq![c] + cs, r2)),
            }
        } else if r.len() > 0 && r[0] == ']' {
            Some((seq![c], r.skip(1)))
        } else {
            None
        },
    }
}

/// Parses a whole schema object.
pub open spec fn p_schema(s: Seq<char>) -> Option<(SchemaView, Seq<char>)> {
    match p_lit(s, ("{\"fields\":[")@) {
        None => None,
        Some(r1) => if r1.len() > 0 && r1[0] == ']' {
            match p_lit(r1.skip(1), (",\"type\":\"struct\"}")@) {
                None => None,
                Some(r2) => Some((SchemaView { fields: Seq::empty() }, r2)),
            }
        } else {
            match p_cols(r1) {
                None => None,
                Some((cs, r2)) => match p_lit(r2, (",\"type\":\"struct\"}")@) {
                    None => None,
                    Some(r3) => Some((SchemaView { fields: cs }, r3)),
                },
            }
        },
    }
}

// ---------------------------------------------------------------------------
// inversion: the schema parser undoes the schema encoder
// ---------------------------------------------------------------------------

#[verifier::rlimit(50)]
pub proof fn lemma_p_col_enc(c: ColumnView, rest: Seq<char>)
    requires
        c.metadata.len() == 0,
    ensures
        p_col(enc_col(c) + rest) == Some((c, rest)),
{
    let s = enc_col(c) + rest;
    let t1 = enc_jstr(c.name) + (",\"type\":")@ + enc_jstr(type_tag(c.typ)) + (",\"nullable\":")@
        + enc_bool(c.nullable) + (",\"metadata\":{}}")@ + rest;
    assert(s =~= ("{\"name\":")@ + t1);
    lemma_p_lit(("{\"name\":")@, t1);
    let t2 = (",\"type\":")@ + enc_jstr(type_tag(c.typ)) + (",\"nullable\":")@ + enc_bool(
        c.nullable,
    ) + (",\"metadata\":{}}")@ + rest;
    assert(t1 =~= enc_jstr(c.name) + t2);
    lemma_p_jstr_enc(c.name, t2);
    let t3 = enc_jstr(type_tag(c.typ)) + (",\"nullable\":")@ + enc_bool(c.nullable) + (
    ",\"metadata\":{}}")@ + rest;
    assert(t2 =~= (",\"type\":")@ + t3);
    lemma_p_lit((",\"type\":")@, t3);
    let t4 = (",\"nullable\":")@ + enc_bool(c.nullable) + (",\"metadata\":{}}")@ + rest;
    assert(t3 =~= enc_jstr(type_tag(c.typ)) + t4);
    lemma_p_jstr_enc(type_tag(c.typ), t4);
    lemma_tag_type(c.typ);
    let t5 = enc_bool(c.nullable) + (",\"metadata\":{}}")@ + rest;
    assert(t4 =~= (",\"nullable\":")@ + t5);
    lemma_p_lit((",\"nullable\":")@, t5);
    let t6 = (",\"metadata\":{}}")@ + rest;
    assert(t5 =~= enc_bool(c.nullable) + t6);
    lemma_p_bool_enc(c.nullable, t6);
    lemma_p_lit((",\"metadata\":{}}")@, rest);
    assert(t6 =~= (",\"metadata\":{}}")@ + rest);
    assert(p_col(s)->Some_0.0.metadata =~= c.metadata);
}

pub open spec fn cols_meta_empty(cs: Seq<ColumnView>) -> bool {
    forall|i: int| 0 <= i < cs.len() ==> (#[trigger] cs[i]).metadata.len() == 0
}

#[verifier::rlimit(50)]
pub proof fn lemma_p_schema_enc(sc: SchemaView, rest: Seq<char>)
    requires
        cols_meta_empty(sc.fields),
        rest.len() == 0 || rest[0] != ',',
    ensures
        p_schema(enc_schema(sc) + rest) == Some((sc, rest)),
{
    let s = enc_schema(sc) + rest;
    reveal_strlit("],\"type\":\"struct\"}");
    reveal_strlit(",\"type\":\"struct\"}");
    assert((",\"type\":\"struct\"}")@ =~= ("],\"type\":\"struct\"}")@.skip(1));
    if sc.fields.len() == 0 {
        let t1 = ("],\"type\":\"struct\"}")@ + rest;
        assert(s =~= ("{\"fields\":[")@ + t1);
        lemma_p_lit(("{\"fields\":[")@, t1);
        assert(t1[0] == ']');
        assert(t1.skip(1) =~= (",\"type\":\"struct\"}")@ + rest);
        lemma_p_lit((",\"type\":\"struct\"}")@, rest);
        assert(p_schema(s)->Some_0.0.fields =~= sc.fields);
    } else {
        let t1 = enc_cols(sc.fields) + seq![']'] + ((",\"type\":\"struct\"}")@ + rest);
        assert(s =~= ("{\"fields\":[")@ + t1);
        lemma_p_lit(("{\"fields\":[")@, t1);
        lemma_p_cols_tag(sc.fields, rest);
        assert(t1.len() > 0);
        assert(t1[0] != ']') by {
            if sc.fields.len() >= 1 {
                assert(t1[0] == enc_col(sc.fields[0])[0]) by {
                    assert(enc_cols(sc.fields)[0] == enc_col(sc.fields[0])[0]) by {
                        reveal_strlit("{\"name\":");
                        assert(enc_col(sc.fields[0])[0] == '{');
                    }
                }
                reveal_strlit("{\"name\":");
            }
        }
        lemma_p_lit((",\"type\":\"struct\"}")@, rest);
        assert(p_schema(s)->Some_0.0.fields =~= sc.fields);
    }
}

/// The column-run inversion specialised to the struct tag that follows the
/// closing bracket in a schema object.
proof fn lemma_p_cols_tag(cs: Seq<ColumnView>, rest: Seq<char>)
    requires
        cs.len() >= 1,
        cols_meta_empty(cs),
    ensures
        p_cols(enc_cols(cs) + seq![']'] + ((",\"type\":\"struct\"}")@ + rest)) == Some(
            (cs, (",\"type\":\"struct\"}")@ + rest),
        ),
{
    reveal_strlit(",\"type\":\"struct\"}");
    let after = (",\"type\":\"struct\"}")@ + rest;
    assert(after[0] == ',');
    lemma_p_cols_after(cs, after);
}

/// The column-run inversion for any following text that does not begin with
/// a comma or is the struct tag: the parser stops at the bracket.
#[verifier::rlimit(50)]
proof fn lemma_p_cols_after(cs: Seq<ColumnView>, after: Seq<char>)
    requires
        cs.len() >= 1,
        cols_meta_empty(cs),
    ensures
        p_cols(enc_cols(cs) + seq![']'] + after) == Some((cs, after)),
    decreases cs.len(),
{
    let s = enc_cols(cs) + seq![']'] + after;
    if cs.len() == 1 {
        assert(s =~= enc_col(cs[0]) + (seq![']'] + after));
        lemma_p_col_enc(cs[0], seq![']'] + after);
        let r = seq![']'] + after;
        assert(r[0] == ']');
        assert(r.skip(1) =~= after);
        assert(p_cols(s)->Some_0.0 =~= cs);
    } else {
        let tail = enc_cols(cs.skip(1)) + seq![']'] + after;
        assert(s =~= enc_col(cs[0]) + (seq![','] + tail));
        lemma_p_col_enc(cs[0], seq![','] + tail);
        let r = seq![','] + tail;
        assert(r[0] == ',');
        assert(r.skip(1) =~= tail);
        assert(cols_meta_empty(cs.skip(1)));
        lemma_p_cols_after(cs.skip(1), after);
        assert(enc_col(cs[0]).len() > 0) by {
            reveal_strlit("{\"name\":");
        }
        assert(r.len() < s.len());
        assert(p_cols(s)->Some_0.0 =~= cs);
    }
}

// ---------------------------------------------------------------------------
// executable schema codec
// ---------------------------------------------------------------------------

fn type_tag_str(t: DeltaTableType) -> (r: &'static str)
    ensures
        r@ == type_tag(t),
{
    match t {
        DeltaTableType::String => "string",
        DeltaTableType::Long => "long",
        DeltaTableType::Integer => "integer",
        DeltaTableType::Short => "short",
        DeltaTableType::Byte => "byte",
        DeltaTableType::Float => "float",
        DeltaTableType::Double => "double",
        DeltaTableType::Boolean => "boolean",
        DeltaTableType::Date => "date",
        DeltaTableType::Timestamp => "timestamp",
    }
}

fn e_tag_type(v: &Vec<char>) -> (r: Option<DeltaTableType>)
    ensures
        r == tag_type(v@),
{
    let k0 = chars_of_str("string");
    if chars_eq(v, &k0) {
        return Some(DeltaTableType::String);
    }
    let k1 = chars_of_str("long");
    if chars_eq(v, &k1) {
        return Some(DeltaTableType::Long);
    }
    let k2 = chars_of_str("integer");
    if chars_eq(v, &k2) {
        return Some(DeltaTableType::Integer);
    }
    let k3 = chars_of_str("short");
    if chars_eq(v, &k3) {
        return Some(DeltaTableType::Short);
    }
    let k4 = chars_of_str("byte");
    if chars_eq(v, &k4) {
        return Some(DeltaTableType::Byte);
    }
    let k5 = chars_of_str("float");
    if chars_eq(v, &k5) {
        return Some(DeltaTableType::Float);
    }
    let k6 = chars_of_str("double");
    if chars_eq(v, &k6) {
        return Some(DeltaTableType::Double);
    }
    let k7 = chars_of_str("boolean");
    if chars_eq(v, &k7) {
        return Some(DeltaTableType::Boolean);
    }
    let k8 = chars_of_str("date");
    if chars_eq(v, &k8) {
        return Some(DeltaTableType::Date);
    }
    let k9 = chars_of_str("timestamp");
    if chars_eq(v, &k9) {
        return Some(DeltaTableType::Timestamp);
    }
    None
}

proof fn lemma_enc_cols_snoc(cs: Seq<ColumnView>, c: ColumnView)
    requires
        cs.len() >= 1,
    ensures
        enc_cols(cs.push(c)) == enc_cols(cs) + seq![','] + enc_col(c),
    decreases cs.len(),
{
    if cs.len() == 1 {
        assert(cs.push(c)[0] == cs[0]);
        assert(cs.push(c).skip(1) =~= seq![c]);
        assert(enc_cols(seq![c]) == enc_col(c));
        assert(enc_cols(cs.push(c)) =~= enc_cols(cs) + seq![','] + enc_col(c));
    } else {
        assert(cs.push(c)[0] == cs[0]);
        assert(cs.push(c).skip(1) =~= cs.skip(1).push(c));
        lemma_enc_cols_snoc(cs.skip(1), c);
        assert(enc_cols(cs.push(c)) =~= enc_cols(cs) + seq![','] + enc_col(c));
    }
}

/// Appends one column in its wire form.
fn push_col(out: &mut Vec<char>, c: &DeltaTableColumnDefinition)
    ensures
        final(out)@ == old(out)@ + enc_col(c@),
{
    push_str_chars(out, "{\"name\":");
    push_jstr(out, c.name.as_str());
    push_str_chars(out, ",\"type\":");
    push_jstr(out, type_tag_str(c.typ));
    push_str_chars(out, ",\"nullable\":");
    crate::json::push_bool(out, c.nullable);
    push_str_chars(out, ",\"metadata\":{}}");
    proof {
        assert(out@ =~= old(out)@ + enc_col(c@));
    }
}

/// The JSON text of a schema, as `schemaString` carries it.
pub fn encode_schema(s: &DeltaTableSchema) -> (r: String)
    ensures
        r@ == enc_schema(s@),
{
    let mut out: Vec<char> = Vec::new();
    push_str_chars(&mut out, "{\"fields\":[");
    let n = s.fields.len();
    let mut i: usize = 0;
    while i < n
        invariant
            n == s.fields@.len(),
            i <= n,
            out@ == ("{\"fields\":[")@ + enc_cols(s@.fields.take(i as int)),
        decreases n - i,
    {
        if i > 0 {
            out.push(',');
        }
        push_col(&mut out, &s.fields[i]);
        proof {
            assert(s@.fields.take(i + 1 as int) =~= s@.fields.take(i as int).push(
                s@.fields[i as int],
            ));
            if i == 0 {
                assert(s@.fields.take(0) =~= Seq::<ColumnView>::empty());
                assert(enc_cols(Seq::<ColumnView>::empty()) =~= Seq::<char>::empty());
                assert(enc_cols(seq![s@.fields[0]]) == enc_col(s@.fields[0]));
                assert(s@.fields.take(1) =~= seq![s@.fields[0]]);
                assert(out@ =~= ("{\"fields\":[")@ + enc_cols(s@.fields.take(i + 1 as int)));
            } else {
                lemma_enc_cols_snoc(s@.fields.take(i as int), s@.fields[i as int]);
                assert(out@ =~= ("{\"fields\":[")@ + enc_cols(s@.fields.take(i + 1 as int)));
            }
        }
        i = i + 1;
    }
    push_str_chars(&mut out, "],\"type\":\"struct\"}");
    proof {
        assert(s@.fields.take(n as int) =~= s@.fields);
        assert(out@ =~= enc_schema(s@));
    }
    string_from_chars(&out)
}

/// Parses one column object at position `i`.
fn e_col(s: &Vec<char>, i: usize) -> (r: Option<(DeltaTableColumnDefinition, usize)>)
    requires
        i <= s@.len(),
    ensures
        match r {
            Some((c, j)) => i <= j <= s@.len() && p_col(s@.skip(i as int)) == Some(
                (c@, s@.skip(j as int)),
            ),
            None => p_col(s@.skip(i as int)) is None,
        },
{
    let j1 = match e_lit(s, i, "{\"name\":") {
        Some(j) => j,
        None => {
            return None;
        },
    };
    let (name_cs, j2) = match e_jstr(s, j1) {
        Some(x) => x,
        None => {
            return None;
        },
    };
    let j3 = match e_lit(s, j2, ",\"type\":") {
        Some(j) => j,
        None => {
            return None;
        },
    };
    let (tag_cs, j4) = match e_jstr(s, j3) {
        Some(x) => x,
        None => {
            return None;
        },
    };
    let typ = match e_tag_type(&tag_cs) {
        Some(t) => t,
        None => {
            return None;
        },
    };
    let j5 = match e_lit(s, j4, ",\"nullable\":") {
        Some(j) => j,
        None => {
            return None;
        },
    };
    let (nullable, j6) = match e_bool(s, j5) {
        Some(x) => x,
        None => {
            return None;
        },
    };
    let j7 = match e_lit(s, j6, ",\"metadata\":{}}") {
        Some(j) => j,
        None => {
            return None;
        },
    };
    let name = string_from_chars(&name_cs);
    let col = DeltaTableColumnDefinition { name, typ, nullable, metadata: Vec::new() };
    proof {
        assert(pairs_view(Seq::<(String, String)>::empty()) =~= Seq::<(Seq<char>, Seq<char>)>::empty());
        assert(col@.metadata =~= Seq::<(Seq<char>, Seq<char>)>::empty());
        assert(p_col(s@.skip(i as int))->Some_0.0 =~= col@);
    }
    Some((col, j7))
}

/// Parses a comma-separated run of columns and the closing bracket,
/// starting at the first column.
fn e_cols(s: &Vec<char>, i: usize) -> (r: Option<(Vec<DeltaTableColumnDefinition>, usize)>)
    requires
        i <= s@.len(),
    ensures
        match r {
            Some((cs, j)) => i <= j <= s@.len() && p_cols(s@.skip(i as int)) == Some(
                (cols_view(cs@), s@.skip(j as int)),
            ),
            None => p_cols(s@.skip(i as int)) is None,
        },
{
    let mut acc: Vec<DeltaTableColumnDefinition> = Vec::new();
    let mut j: usize = i;
    proof {
        assert(cols_view(acc@) =~= Seq::<ColumnView>::empty());
    }
    loop
        invariant_except_break
            i <= j <= s@.len(),
            match p_cols(s@.skip(j as int)) {
                Some((t, r)) => p_cols(s@.skip(i as int)) == Some((cols_view(acc@) + t, r)),
                None => p_cols(s@.skip(i as int)) is None,
            },
        ensures
            match p_cols(s@.skip(i as int)) {
                Some((t, r)) => t == cols_view(acc@) && i <= j <= s@.len() && r == s@.skip(
                    j as int,
                ),
                None => false,
            },
        decreases s@.len() - j,
    {
        let ghost pre = s@.skip(j as int);
        let (c, j2) = match e_col(s, j) {
            Some(x) => x,
            None => {
                return None;
            },
        };
        proof {
            // the parser consumed at least one character, so the loop advances
            lemma_p_col_consumes(pre);
            assert(s@.skip(j2 as int).len() < pre.len());
        }
        acc.push(c);
        if j2 == s.len() {
            return None;
        }
        let ch = s[j2];
        proof {
            assert(s@.skip(j2 as int)[0] == ch);
            assert(s@.skip(j2 as int).skip(1) =~= s@.skip(j2 as int + 1));
            assert(cols_view(acc@) =~= cols_view(acc@.drop_last()).push(c@));
        }
        if ch == ']' {
            proof {
                let t_r = p_cols(pre);
                assert(p_cols(pre) == Some((seq![c@], s@.skip(j2 as int + 1))));
                if let Some((t, r)) = p_cols(s@.skip(i as int)) {
                }
                assert(cols_view(acc@.drop_last()) + (seq![c@]) =~= cols_view(acc@));
            }
            j = j2 + 1;
            break;
        } else if ch == ',' {
            proof {
                assert(s@.skip(j2 as int).len() < pre.len());
                if let Some((t2, r2)) = p_cols(s@.skip(j2 as int + 1)) {
                    assert(p_cols(pre) == Some((seq![c@] + t2, r2)));
                    assert(cols_view(acc@.drop_last()) + (seq![c@] + t2) =~= cols_view(acc@)
                        + t2);
                }
            }
            j = j2 + 1;
        } else {
            return None;
        }
    }
    Some((acc, j))
}

/// The length a successful column parse leaves is strictly smaller.
proof fn lemma_p_col_consumes(s: Seq<char>)
    requires
        p_col(s) is Some,
    ensures
        p_col(s)->Some_0.1.len() < s.len(),
{
    reveal_strlit("{\"name\":");
    reveal_strlit(",\"type\":");
    reveal_strlit(",\"nullable\":");
    reveal_strlit(",\"metadata\":{}}");
    let r1 = p_lit(s, ("{\"name\":")@)->Some_0;
    lemma_p_jstr_consumes(r1);
    let r2 = p_jstr(r1)->Some_0.1;
    let r3 = p_lit(r2, (",\"type\":")@)->Some_0;
    lemma_p_jstr_consumes(r3);
    let r4 = p_jstr(r3)->Some_0.1;
    let r5 = p_lit(r4, (",\"nullable\":")@)->Some_0;
    lemma_p_bool_consumes(r5);
    let r6 = p_bool(r5)->Some_0.1;
}

proof fn lemma_p_jstr_consumes(s: Seq<char>)
    requires
        p_jstr(s) is Some,
    ensures
        p_jstr(s)->Some_0.1.len() < s.len(),
{
    lemma_p_jbody_consumes(s.skip(1));
}

proof fn lemma_p_jbody_consumes(s: Seq<char>)
    requires
        crate::json::p_jbody(s) is Some,
    ensures
        crate::json::p_jbody(s)->Some_0.1.len() < s.len(),
    decreases s.len(),
{
    if s[0] == '"' {
    } else if s[0] == '\\' {
        if s[1] == '"' || s[1] == '\\' {
            lemma_p_jbody_consumes(s.skip(2));
        } else {
            lemma_p_jbody_consumes(s.skip(6));
        }
    } else {
        lemma_p_jbody_consumes(s.skip(1));
    }
}

proof fn lemma_p_bool_consumes(s: Seq<char>)
    requires
        p_bool(s) is Some,
    ensures
        p_bool(s)->Some_0.1.len() < s.len(),
{
    reveal_strlit("true");
    reveal_strlit("false");
}

/// Everything the schema parser accepts, with nothing left over.
pub open spec fn spec_decode_schema(s: Seq<char>) -> Option<SchemaView> {
    match p_schema(s) {
        Some((sc, r)) => if r.len() == 0 {
            Some(sc)
        } else {
            None
        },
        None => None,
    }
}

/// Reads a schema back from its JSON text; anything but a complete,
/// canonical schema object is a `SerializationFailure`.
pub fn decode_schema(text: &str) -> (r: Result<DeltaTableSchema, DeltaError>)
    ensures
        match r {
            Ok(sc) => spec_decode_schema(text@) == Some(sc@),
            Err(e) => spec_decode_schema(text@) is None && e == DeltaError::SerializationFailure,
        },
{
    let s = chars_of_str(text);
    proof {
        assert(s@.skip(0) =~= s@);
    }
    let j1 = match e_lit(&s, 0, "{\"fields\":[") {
        Some(j) => j,
        None => {
            return Err(DeltaError::SerializationFailure);
        },
    };
    let ghost r1 = s@.skip(j1 as int);
    if j1 < s.len() && s[j1] == ']' {
        proof {
            assert(r1[0] == ']');
            assert(r1.skip(1) =~= s@.skip(j1 as int + 1));
        }
        let j2 = match e_lit(&s, j1 + 1, ",\"type\":\"struct\"}") {
            Some(j) => j,
            None => {
                return Err(DeltaError::SerializationFailure);
            },
        };
        if j2 != s.len() {
            proof {
                assert(s@.skip(j2 as int).len() != 0);
            }
            return Err(DeltaError::SerializationFailure);
        }
        proof {
            assert(s@.skip(j2 as int).len() == 0);
            assert(cols_view(Seq::<DeltaTableColumnDefinition>::empty())
                =~= Seq::<ColumnView>::empty());
        }
        let sc = DeltaTableSchema { fields: Vec::new(), typ: DeltaTableStructType::Struct };
        proof {
            assert(sc@.fields =~= Seq::<ColumnView>::empty());
            assert(spec_decode_schema(text@)->Some_0.fields =~= sc@.fields);
        }
        return Ok(sc);
    }
    proof {
        if j1 == s@.len() {
            assert(r1.len() == 0);
        } else {
            assert(r1[0] == s@[j1 as int]);
        }
    }
    let (fields, j2) = match e_cols(&s, j1) {
        Some(x) => x,
        None => {
            return Err(DeltaError::SerializationFailure);
        },
    };
    let j3 = match e_lit(&s, j2, ",\"type\":\"struct\"}") {
        Some(j) => j,
        None => {
            return Err(DeltaError::SerializationFailure);
        },
    };
    if j3 != s.len() {
        proof {
            assert(s@.skip(j3 as int).len() != 0);
        }
        return Err(DeltaError::SerializationFailure);
    }
    proof {
        assert(s@.skip(j3 as int).len() == 0);
    }
    let sc = DeltaTableSchema { fields, typ: DeltaTableStructType::Struct };
    proof {
        assert(spec_decode_schema(text@)->Some_0.fields =~= sc@.fields);
    }
    Ok(sc)
}

} // verus!
