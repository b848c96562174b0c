//! The structured tags of an image container, as plain values.
//!
//! Parsing the container is left to the `exif` crate; this module copies
//! what it finds into `ExifField` values, one per field, and offers the
//! lookups that the extraction rules need.

use vstd::prelude::*;

verus! {

/// The directory of a container in which a tag number is to be read.
#[derive(Clone, Copy, Debug, PartialEq, Eq, Structural)]
pub enum TagContext {
    Tiff,
    Exif,
    Gps,
    Interop,
    Other,
}

/// An unsigned rational number. A zero denominator stands for zero.
#[derive(Clone, Copy, Debug, PartialEq, Eq, Structural)]
pub struct Rational {
    pub num: u32,
    pub denom: u32,
}

/// The value of a field: the integer and rational kinds that the extraction
/// rules read, element by element; every other kind is `Other`.
#[derive(Clone, Debug, PartialEq, Eq)]
pub enum ExifValue {
    Byte(Vec<u8>),
    Short(Vec<u16>),
    Long(Vec<u32>),
    SShort(Vec<i16>),
    SLong(Vec<i32>),
    Rational(Vec<Rational>),
    Other,
}

/// One field of a container.
#[derive(Clone, Debug, PartialEq, Eq)]
pub struct ExifField {
    /// Directory that gives the tag number its meaning.
    pub context: TagContext,
    /// Tag number.
    pub number: u16,
    /// Index of the image directory the field belongs to; 0 is the primary
    /// image.
    pub ifd: u16,
    pub value: ExifValue,
    /// The value in its tag-specific display form, with its unit.
    pub display: String,
}

/// Index of the primary image directory.
pub const PRIMARY_IFD: u16 = 0;

// ---------------------------------------------------------------------------
// Reading a container
// ---------------------------------------------------------------------------

/// `exif::Exif`, the parsed container of the `exif` crate. Nothing of its
/// inside is known here; it is read through the functions below.
#[verifier::external_type_specification]
#[verifier::external_body]
pub struct ExExif(exif::Exif);

/// The fields that a parsed container holds, in the order in which
/// `exif::Exif::fields` yields them.
pub uninterp spec fn exif_contents(parsed: exif::Exif) -> Seq<ExifField>;

/// The fields that `exif::Reader::read_from_container` finds in the given
/// bytes; `None` where it reports an error.
pub uninterp spec fn container_fields(data: Seq<u8>) -> Option<Seq<ExifField>>;

/// Parses a container held in memory with
/// `exif::Reader::read_from_container`. What it finds depends on the bytes
/// alone and is named `container_fields`; an error of the parser is `None`.
#[verifier::external_body]
fn parse_container(data: &[u8]) -> (r: Option<exif::Exif>)
    ensures
        match r {
            Some(parsed) => container_fields(data@) == Some(exif_contents(parsed)),
            None => container_fields(data@) is None,
        },
{
    exif::Reader::new().read_from_container(&mut std::io::Cursor::new(data)).ok()
}

/// The number of fields, from the length of `exif::Exif::fields`.
#[verifier::external_body]
fn field_count(parsed: &exif::Exif) -> (n: usize)
    ensures
        n == exif_contents(*parsed).len(),
{
    parsed.fields().len()
}

/// Context, tag number and directory index of the field at `index`, from
/// `exif::Field::tag` and `exif::Field::ifd_num`.
#[verifier::external_body]
fn field_tag(parsed: &exif::Exif, index: usize) -> (r: (TagContext, u16, u16))
    requires
        index < exif_contents(*parsed).len(),
    ensures
        r.0 == exif_contents(*parsed)[index as int].context,
        r.1 == exif_contents(*parsed)[index as int].number,
        r.2 == exif_contents(*parsed)[index as int].ifd,
{
    let field = parsed.fields().nth(index).unwrap();
    let context = match field.tag.context() {
        exif::Context::Tiff => TagContext::Tiff,
        exif::Context::Exif => TagContext::Exif,
        exif::Context::Gps => TagContext::Gps,
        exif::Context::Interop => TagContext::Interop,
        _ => TagContext::Other,
    };
    (context, field.tag.number(), field.ifd_num.index())
}

/// Value of the field at `index`, from `exif::Field::value`, copied variant
/// by variant.
#[verifier::external_body]
fn field_value(parsed: &exif::Exif, index: usize) -> (r: ExifValue)
    requires
        index < exif_contents(*parsed).len(),
    ensures
        r == exif_contents(*parsed)[index as int].value,
{
    match &parsed.fields().nth(index).unwrap().value {
        exif::Value::Byte(v) => ExifValue::Byte(v.clone()),
        exif::Value::Short(v) => ExifValue::Short(v.clone()),
        exif::Value::Long(v) => ExifValue::Long(v.clone()),
        exif::Value::SShort(v) => ExifValue::SShort(v.clone()),
        exif::Value::SLong(v) => ExifValue::SLong(v.clone()),
        exif::Value::Rational(v) => ExifValue::Rational(
            v.iter().map(|r| Rational { num: r.num, denom: r.denom }).collect(),
        ),
        _ => ExifValue::Other,
    }
}

/// Display form of the field at `index`, from
/// `exif::Field::display_value` with the container as the provider of units.
#[verifier::external_body]
fn field_display(parsed: &exif::Exif, index: usize) -> (r: String)
    requires
        index < exif_contents(*parsed).len(),
    ensures
        r == exif_contents(*parsed)[index as int].display,
{
    parsed.fields().nth(index).unwrap().display_value().with_unit(parsed).to_string()
}

/// Reads the fields of an image container held in memory. A container that
/// cannot be parsed gives `None`.
pub fn read_exif(data: &[u8]) -> (r: Option<Vec<ExifField>>)
    ensures
        match r {
            Some(fields) => container_fields(data@) == Some(fields@),
            None => container_fields(data@) is None,
        },
{
    let parsed = match parse_container(data) {
        Some(parsed) => parsed,
        None => {
            return None;
        },
    };
    let count = field_count(&parsed);
    let mut fields: Vec<ExifField> = Vec::new();
    let mut i: usize = 0;
    while i < count
        invariant
            i <= count,
            count == exif_contents(parsed).len(),
            fields@ == exif_contents(parsed).take(i as int),
        decreases count - i,
    {
        let (context, number, ifd) = field_tag(&parsed, i);
        let value = field_value(&parsed, i);
        let display = field_display(&parsed, i);
        fields.push(ExifField { context, number, ifd, value, display });
        proof {
            assert(fields@ =~= exif_contents(parsed).take(i + 1));
        }
        i = i + 1;
    }
    proof {
        assert(exif_contents(parsed).take(count as int) =~= exif_contents(parsed));
    }
    Some(fields)
}

// ---------------------------------------------------------------------------
// Lookups
// ---------------------------------------------------------------------------

/// The field is the one that a tag names within an image directory.
pub open spec fn is_tagged(field: ExifField, context: TagContext, number: u16, ifd: u16) -> bool {
    field.context == context && field.number == number && field.ifd == ifd
}

/// Index of the last field with the given tag in the given directory: the
/// field that `exif::Exif::get_field` returns, where fields repeat.
pub open spec fn tagged_field(
    fields: Seq<ExifField>,
    context: TagContext,
    number: u16,
    ifd: u16,
) -> Option<int>
    decreases fields.len(),
{
    if fields.len() == 0 {
        None
    } else if is_tagged(fields.last(), context, number, ifd) {
        Some(fields.len() - 1)
    } else {
        tagged_field(fields.drop_last(), context, number, ifd)
    }
}

/// Index of the last field with the given tag number, whatever its context
/// and directory.
pub open spec fn numbered_field(fields: Seq<ExifField>, number: u16) -> Option<int>
    decreases fields.len(),
{
    if fields.len() == 0 {
        None
    } else if fields.last().number == number {
        Some(fields.len() - 1)
    } else {
        numbered_field(fields.drop_last(), number)
    }
}

/// `tagged_field` gives the last field with the tag in the directory, and
/// `None` exactly when there is none.
pub proof fn lemma_tagged_field_is_last(
    fields: Seq<ExifField>,
    context: TagContext,
    number: u16,
    ifd: u16,
)
    ensures
        match tagged_field(fields, context, number, ifd) {
            Some(i) => 0 <= i < fields.len() && is_tagged(fields[i], context, number, ifd)
                && forall|j: int|
                i < j < fields.len() ==> !is_tagged(#[trigger] fields[j], context, number, ifd),
            None => forall|j: int|
                0 <= j < fields.len() ==> !is_tagged(#[trigger] fields[j], context, number, ifd),
        },
    decreases fields.len(),
{
    if fields.len() > 0 && !is_tagged(fields.last(), context, number, ifd) {
        lemma_tagged_field_is_last(fields.drop_last(), context, number, ifd);
        assert forall|j: int| 0 <= j < fields.len() - 1 implies fields.drop_last()[j]
            == fields[j] by {}
    }
}

/// `numbered_field` gives the last field with the tag number, and `None`
/// exactly when there is none.
pub proof fn lemma_numbered_field_is_last(fields: Seq<ExifField>, number: u16)
    ensures
        match numbered_field(fields, number) {
            Some(i) => 0 <= i < fields.len() && fields[i].number == number && forall|j: int|
                i < j < fields.len() ==> (#[trigger] fields[j]).number != number,
            None => forall|j: int| 0 <= j < fields.len() ==> (#[trigger] fields[j]).number != number,
        },
    decreases fields.len(),
{
    if fields.len() > 0 && fields.last().number != number {
        lemma_numbered_field_is_last(fields.drop_last(), number);
        assert forall|j: int| 0 <= j < fields.len() - 1 implies fields.drop_last()[j]
            == fields[j] by {}
    }
}

/// Finds the field that a tag names within an image directory; where the
/// container repeats it, the last one.
pub fn find_field(fields: &[ExifField], context: TagContext, number: u16, ifd: u16) -> (r: Option<
    usize,
>)
    ensures
        match r {
            Some(i) => tagged_field(fields@, context, number, ifd) == Some(i as int) && i
                < fields.len(),
            None => tagged_field(fields@, context, number, ifd) is None,
        },
{
    let mut i: usize = fields.len();
    proof {
        assert(fields@.take(fields@.len() as int) =~= fields@);
    }
    while i > 0
        invariant
            i <= fields.len(),
            tagged_field(fields@, context, number, ifd) == tagged_field(
                fields@.take(i as int),
                context,
                number,
                ifd,
            ),
        decreases i,
    {
        let f = &fields[i - 1];
        proof {
            assert(fields@.take(i as int).last() == fields@[i - 1]);
            assert(fields@.take(i as int).drop_last() =~= fields@.take(i - 1));
        }
        if f.context == context && f.number == number && f.ifd == ifd {
            return Some(i - 1);
        }
        i = i - 1;
    }
    None
}

/// Finds the last field with the given tag number.
pub fn find_numbered(fields: &[ExifField], number: u16) -> (r: Option<usize>)
    ensures
        match r {
            Some(i) => numbered_field(fields@, number) == Some(i as int) && i < fields.len(),
            None => numbered_field(fields@, number) is None,
        },
{
    let mut i: usize = fields.len();
    proof {
        assert(fields@.take(fields@.len() as int) =~= fields@);
    }
    while i > 0
        invariant
            i <= fields.len(),
            numbered_field(fields@, number) == numbered_field(fields@.take(i as int), number),
        decreases i,
    {
        proof {
            assert(fields@.take(i as int).last() == fields@[i - 1]);
            assert(fields@.take(i as int).drop_last() =~= fields@.take(i - 1));
        }
        if fields[i - 1].number == number {
            return Some(i - 1);
        }
        i = i - 1;
    }
    None
}

} // verus!
