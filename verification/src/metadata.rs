//! Table metadata: identity, format descriptor, the serialized schema and
//! the create-time constraints, together with the JSON form in which a
//! metadata snapshot is carried inside the log.

use vstd::prelude::*;
use crate::error::DeltaError;
use crate::json::{e_jstr, e_lit, enc_jstr, lemma_p_jstr_enc, lemma_p_lit, p_jstr, p_lit, push_jstr};
use crate::schema::{decode_schema, pairs_view, spec_decode_schema, DeltaTableSchema};
use crate::text::{chars_eq, chars_of_str, string_from_chars};

verus! {

// ---------------------------------------------------------------------------
// format descriptor
// ---------------------------------------------------------------------------

/// The storage format of a table: a provider name and its options.
#[derive(Debug, PartialEq, Eq, Clone)]
pub struct DeltaTableFormat {
    pub provider: String,
    pub options: Vec<(String, String)>,
}

/// The mathematical shape of a format descriptor.
#[verifier::ext_equal]
pub struct FormatView {
    pub provider: Seq<char>,
    pub options: Seq<(Seq<char>, Seq<char>)>,
}

impl View for DeltaTableFormat {
    type V = FormatView;

    open spec fn view(&self) -> FormatView {
        FormatView { provider: self.provider@, options: pairs_view(self.options@) }
    }
}

/// The protocol restricts table creation to the parquet provider with no
/// options.
pub open spec fn format_valid(f: FormatView) -> bool {
    f.provider == ("parquet")@ && f.options.len() == 0
}

impl DeltaTableFormat {
    pub fn new(provider: String, options: Vec<(String, String)>) -> (r: DeltaTableFormat)
        ensures
            r@.provider == provider@,
            r@.options == pairs_view(options@),
    {
        DeltaTableFormat { provider, options }
    }

    /// True iff the provider is literally `parquet` and the options are
    /// empty.
    pub fn is_valid(&self) -> (r: bool)
        ensures
            r == format_valid(self@),
    {
        let p = chars_of_str(self.provider.as_str());
        let k = chars_of_str("parquet");
        chars_eq(&p, &k) && self.options.len() == 0
    }
}

// ---------------------------------------------------------------------------
// table metadata
// ---------------------------------------------------------------------------

/// The metadata snapshot written once at table creation: a unique id, the
/// table name, the format, the schema as JSON text, and the partition and
/// configuration constraints, which must be empty.
#[derive(Debug, PartialEq, Eq, Clone)]
pub struct DeltaTableMetadata {
    pub id: String,
    pub name: String,
    pub format: DeltaTableFormat,
    pub schema_string: String,
    pub partition_columns: Vec<String>,
    pub configuration: Vec<(String, String)>,
}

/// The mathematical shape of a metadata snapshot.
#[verifier::ext_equal]
pub struct MetadataView {
    pub id: Seq<char>,
    pub name: Seq<char>,
    pub format: FormatView,
    pub schema_string: Seq<char>,
    pub partition_columns: Seq<Seq<char>>,
    pub configuration: Seq<(Seq<char>, Seq<char>)>,
}

pub open spec fn strings_view(v: Seq<String>) -> Seq<Seq<char>> {
    v.map_values(|s: String| s@)
}

impl View for DeltaTableMetadata {
    type V = MetadataView;

    open spec fn view(&self) -> MetadataView {
        MetadataView {
            id: self.id@,
            name: self.name@,
            format: self.format@,
            schema_string: self.schema_string@,
            partition_columns: strings_view(self.partition_columns@),
            configuration: pairs_view(self.configuration@),
        }
    }
}

/// Format valid, no partition columns, no configuration. The schema text is
/// not re-checked here: the caller validates the schema before building
/// metadata.
pub open spec fn metadata_valid(m: MetadataView) -> bool {
    format_valid(m.format) && m.partition_columns.len() == 0 && m.configuration.len() == 0
}

impl DeltaTableMetadata {
    pub fn new(
        id: String,
        name: String,
        format: DeltaTableFormat,
        schema_string: String,
        partition_columns: Vec<String>,
        configuration: Vec<(String, String)>,
    ) -> (r: DeltaTableMetadata)
        ensures
            r@.id == id@,
            r@.name == name@,
            r@.format == format@,
            r@.schema_string == schema_string@,
            r@.partition_columns == strings_view(partition_columns@),
            r@.configuration == pairs_view(configuration@),
    {
        DeltaTableMetadata { id, name, format, schema_string, partition_columns, configuration }
    }

    /// True iff the format is valid and the partition columns and
    /// configuration are empty.
    pub fn is_valid(&self) -> (r: bool)
        ensures
            r == metadata_valid(self@),
    {
        self.format.is_valid() && self.partition_columns.len() == 0 && self.configuration.len()
            == 0
    }

    /// Reads the schema back out of its serialized form.
    pub fn schema(&self) -> (r: Result<DeltaTableSchema, DeltaError>)
        ensures
            match r {
                Ok(s) => spec_decode_schema(self@.schema_string) == Some(s@),
                Err(e) => spec_decode_schema(self@.schema_string) is None && e
                    == DeltaError::SerializationFailure,
            },
    {
        decode_schema(self.schema_string.as_str())
    }
}

// ---------------------------------------------------------------------------
// wire form
// ---------------------------------------------------------------------------

/// A metadata snapshot as the log writes it. The partition columns, the
/// configuration and the format options appear as their empty forms: a
/// metadata action is only ever written after validation has pinned them
/// empty.
pub open spec fn enc_meta(m: MetadataView) -> Seq<char> {
    ("{\"id\":")@ + enc_jstr(m.id) + (",\"name\":")@ + enc_jstr(m.name) + (
    ",\"format\":{\"provider\":")@ + enc_jstr(m.format.provider) + (
    ",\"options\":{}},\"schemaString\":")@ + enc_jstr(m.schema_string) + (
    ",\"partitionColumns\":[],\"configuration\":{}}")@
}

/// Parses a metadata snapshot.
pub open spec fn p_meta(s: Seq<char>) -> Option<(MetadataView, Seq<char>)> {
    match p_lit(s, ("{\"id\":")@) {
        None => None,
        Some(r1) => match p_jstr(r1) {
            None => None,
            Some((id, r2)) => match p_lit(r2, (",\"name\":")@) {
                None => None,
                Some(r3) => match p_jstr(r3) {
                    None => None,
                    Some((name, r4)) => match p_lit(r4, (",\"format\":{\"provider\":")@) {
                        None => None,
                        Some(r5) => match p_jstr(r5) {
                            None => None,
                            Some((provider, r6)) => match p_lit(
                                r6,
                                (",\"options\":{}},\"schemaString\":")@,
                            ) {
                                None => None,
                                Some(r7) => match p_jstr(r7) {
                                    None => None,
                                    Some((schema_string, r8)) => match p_lit(
                                        r8,
                                        (",\"partitionColumns\":[],\"configuration\":{}}")@,
                                    ) {
                                        None => None,
                                        Some(r9) => Some(
                                            (
                                                MetadataView {
                                                    id,
                                                    name,
                                                    format: FormatView {
                                                        provider,
                                                        options: Seq::empty(),
                                                    },
                                                    schema_string,
                                                    partition_columns: Seq::empty(),
                                                    configuration: Seq::empty(),
                                                },
                                                r9,
                                            ),
                                        ),
                                    },
                                },
                            },
                        },
                    },
                },
            },
        },
    }
}

/// A metadata snapshot reads back as it was written, provided its empty
/// parts really are empty, which validation guarantees before anything is
/// written.
#[verifier::rlimit(50)]
pub proof fn lemma_p_meta_enc(m: MetadataView, rest: Seq<char>)
    requires
        metadata_valid(m) || (m.format.options.len() == 0 && m.partition_columns.len() == 0
            && m.configuration.len() == 0),
    ensures
        p_meta(enc_meta(m) + rest) == Some((m, rest)),
{
    let s = enc_meta(m) + rest;
    let t1 = enc_jstr(m.id) + (",\"name\":")@ + enc_jstr(m.name) + (
    ",\"format\":{\"provider\":")@ + enc_jstr(m.format.provider) + (
    ",\"options\":{}},\"schemaString\":")@ + enc_jstr(m.schema_string) + (
    ",\"partitionColumns\":[],\"configuration\":{}}")@ + rest;
    assert(s =~= ("{\"id\":")@ + t1);
    lemma_p_lit(("{\"id\":")@, t1);
    let t2 = (",\"name\":")@ + enc_jstr(m.name) + (",\"format\":{\"provider\":")@ + enc_jstr(
        m.format.provider,
    ) + (",\"options\":{}},\"schemaString\":")@ + enc_jstr(m.schema_string) + (
    ",\"partitionColumns\":[],\"configuration\":{}}")@ + rest;
    assert(t1 =~= enc_jstr(m.id) + t2);
    lemma_p_jstr_enc(m.id, t2);
    let t3 = enc_jstr(m.name) + (",\"format\":{\"provider\":")@ + enc_jstr(m.format.provider) + (
    ",\"options\":{}},\"schemaString\":")@ + enc_jstr(m.schema_string) + (
    ",\"partitionColumns\":[],\"configuration\":{}}")@ + rest;
    assert(t2 =~= (",\"name\":")@ + t3);
    lemma_p_lit((",\"name\":")@, t3);
    let t4 = (",\"format\":{\"provider\":")@ + enc_jstr(m.format.provider) + (
    ",\"options\":{}},\"schemaString\":")@ + enc_jstr(m.schema_string) + (
    ",\"partitionColumns\":[],\"configuration\":{}}")@ + rest;
    assert(t3 =~= enc_jstr(m.name) + t4);
    lemma_p_jstr_enc(m.name, t4);
    let t5 = enc_jstr(m.format.provider) + (",\"options\":{}},\"schemaString\":")@ + enc_jstr(
        m.schema_string,
    ) + (",\"partitionColumns\":[],\"configuration\":{}}")@ + rest;
    assert(t4 =~= (",\"format\":{\"provider\":")@ + t5);
    lemma_p_lit((",\"format\":{\"provider\":")@, t5);
    let t6 = (",\"options\":{}},\"schemaString\":")@ + enc_jstr(m.schema_string) + (
    ",\"partitionColumns\":[],\"configuration\":{}}")@ + rest;
    assert(t5 =~= enc_jstr(m.format.provider) + t6);
    lemma_p_jstr_enc(m.format.provider, t6);
    let t7 = enc_jstr(m.schema_string) + (",\"partitionColumns\":[],\"configuration\":{}}")@
        + rest;
    assert(t6 =~= (",\"options\":{}},\"schemaString\":")@ + t7);
    lemma_p_lit((",\"options\":{}},\"schemaString\":")@, t7);
    let t8 = (",\"partitionColumns\":[],\"configuration\":{}}")@ + rest;
    assert(t7 =~= enc_jstr(m.schema_string) + t8);
    lemma_p_jstr_enc(m.schema_string, t8);
    lemma_p_lit((",\"partitionColumns\":[],\"configuration\":{}}")@, rest);
    assert(p_meta(s)->Some_0.0 =~~= m);
}

/// Appends a metadata snapshot in its wire form.
pub fn push_meta(out: &mut Vec<char>, m: &DeltaTableMetadata)
    ensures
        final(out)@ == old(out)@ + enc_meta(m@),
{
    crate::text::push_str_chars(out, "{\"id\":");
    push_jstr(out, m.id.as_str());
    crate::text::push_str_chars(out, ",\"name\":");
    push_jstr(out, m.name.as_str());
    crate::text::push_str_chars(out, ",\"format\":{\"provider\":");
    push_jstr(out, m.format.provider.as_str());
    crate::text::push_str_chars(out, ",\"options\":{}},\"schemaString\":");
    push_jstr(out, m.schema_string.as_str());
    crate::text::push_str_chars(out, ",\"partitionColumns\":[],\"configuration\":{}}");
    proof {
        assert(out@ =~= old(out)@ + enc_meta(m@));
    }
}

/// Parses a metadata snapshot at position `i`.
pub fn e_meta(s: &Vec<char>, i: usize) -> (r: Option<(DeltaTableMetadata, usize)>)
    requires
        i <= s@.len(),
    ensures
        match r {
            Some((m, j)) => i <= j <= s@.len() && p_meta(s@.skip(i as int)) == Some(
                (m@, s@.skip(j as int)),
            ),
            None => p_meta(s@.skip(i as int)) is None,
        },
{
    let j1 = match e_lit(s, i, "{\"id\":") {
        Some(j) => j,
        None => {
            return None;
        },
    };
    let (id_cs, j2) = match e_jstr(s, j1) {
        Some(x) => x,
        None => {
            return None;
        },
    };
    let j3 = match e_lit(s, j2, ",\"name\":") {
        Some(j) => j,
        None => {
            return None;
        },
    };
    let (name_cs, j4) = match e_jstr(s, j3) {
        Some(x) => x,
        None => {
            return None;
        },
    };
    let j5 = match e_lit(s, j4, ",\"format\":{\"provider\":") {
        Some(j) => j,
        None => {
            return None;
        },
    };
    let (prov_cs, j6) = match e_jstr(s, j5) {
        Some(x) => x,
        None => {
            return None;
        },
    };
    let j7 = match e_lit(s, j6, ",\"options\":{}},\"schemaString\":") {
        Some(j) => j,
        None => {
            return None;
        },
    };
    let (ss_cs, j8) = match e_jstr(s, j7) {
        Some(x) => x,
        None => {
            return None;
        },
    };
    let j9 = match e_lit(s, j8, ",\"partitionColumns\":[],\"configuration\":{}}") {
        Some(j) => j,
        None => {
            return None;
        },
    };
    let m = DeltaTableMetadata {
        id: string_from_chars(&id_cs),
        name: string_from_chars(&name_cs),
        format: DeltaTableFormat {
            provider: string_from_chars(&prov_cs),
            options: Vec::new(),
        },
        schema_string: string_from_chars(&ss_cs),
        partition_columns: Vec::new(),
        configuration: Vec::new(),
    };
    proof {
        assert(pairs_view(Seq::<(String, String)>::empty()) =~= Seq::<(Seq<char>, Seq<char>)>::empty());
        assert(strings_view(Seq::<String>::empty()) =~= Seq::<Seq<char>>::empty());
        assert(p_meta(s@.skip(i as int))->Some_0.0 =~~= m@);
    }
    Some((m, j9))
}

} // verus!
