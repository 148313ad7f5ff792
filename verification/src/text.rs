//! Text layers: reading their objects, and replacing, adding, and removing one.

use rusqlite::Connection;
use std::collections::BTreeSet;
use vstd::prelude::*;
use vstd::utf8;

use crate::bytes::copy_bytes;
use crate::columns;
use crate::database;
use crate::database::{Database, DatabaseSchema, EditableDatabase};
use crate::error;
use crate::error::{Error, Failure};
use crate::limits::Limits;
use crate::links;
use crate::links::place;
use crate::message;
use crate::message::Message;
use crate::sql;
use crate::sql::{
    copy_all, execute, query_all_within, query_by_id, FromRow, Reply, SqlModel, SqlParameter,
    SqlRow,
};
use crate::text_arrays;
use crate::text_arrays::{append_array_item, encode_array, replace_text_attribute_identifier, same_character_encoding_widths, split_array, text_attribute_identifier};
use crate::text_codec;
use crate::text_codec::{decode_utf8, same_text};

verus! {

fn invalid_write(reason: Message) -> (error: Error)
    ensures
        error@ == (Failure::InvalidWrite { reason: reason@ }),
{
    Error::InvalidWrite { reason: reason.build() }
}

/// One text object stored in a CLIP text layer.
#[derive(Clone, Debug, PartialEq, Eq)]
pub struct TextObjectData {
    pub text: String,
    pub attributes: Vec<u8>,
}

/// The model of a [`TextObjectData`].
#[verifier::ext_equal]
pub struct TextObjectModel {
    pub text: Seq<char>,
    pub attributes: Seq<u8>,
}

impl View for TextObjectData {
    type V = TextObjectModel;

    open spec fn view(&self) -> TextObjectModel {
        TextObjectModel {
            text: self.text@,
            attributes: self.attributes@,
        }
    }
}

impl TextObjectData {
    /// UTF-8 text content.
    #[must_use]
    pub fn text(&self) -> (text: &str)
        ensures
            text@ == self.text@,
    {
        self.text.as_str()
    }

    /// Opaque `TextLayerAttributes` bytes paired with this text object.
    #[must_use]
    pub fn attributes(&self) -> (list: &[u8])
        ensures
            list@ == self.attributes@,
    {
        self.attributes.as_slice()
    }
}

/// Result of adding one text object from a validated attribute template.
#[derive(Clone, Copy, Debug, PartialEq, Eq)]
pub struct TextObjectWriteSummary {
    pub object_index: usize,
    pub identifier: u32,
}

impl TextObjectWriteSummary {
    /// New object index in [`TextLayerData::objects`].
    #[must_use]
    pub fn object_index(self) -> (value: usize)
        ensures
            value == self.object_index,
    {
        self.object_index
    }

    /// Newly allocated raw text-object identifier from attribute parameter 50.
    #[must_use]
    pub fn identifier(self) -> (value: u32)
        ensures
            value == self.identifier,
    {
        self.identifier
    }
}

/// Text-specific data read from one `Layer` row.
#[derive(Clone, Debug, PartialEq, Eq)]
pub struct TextLayerData {
    pub layer_id: i64,
    pub layer_type: i64,
    pub text_layer_type: i64,
    pub attributes_version: Option<i64>,
    pub version: Option<i64>,
    pub additional_attributes: Option<Vec<u8>>,
    pub objects: Vec<TextObjectData>,
}

/// The model of a [`TextLayerData`].
#[verifier::ext_equal]
pub struct TextLayerModel {
    pub layer_id: i64,
    pub layer_type: i64,
    pub text_layer_type: i64,
    pub attributes_version: Option<i64>,
    pub version: Option<i64>,
    pub additional_attributes: Option<Seq<u8>>,
    pub objects: Seq<TextObjectModel>,
}

impl View for TextLayerData {
    type V = TextLayerModel;

    open spec fn view(&self) -> TextLayerModel {
        TextLayerModel {
            layer_id: self.layer_id,
            layer_type: self.layer_type,
            text_layer_type: self.text_layer_type,
            attributes_version: self.attributes_version,
            version: self.version,
            additional_attributes: error::optional_bytes(self.additional_attributes),
            objects: error::views(self.objects@),
        }
    }
}

impl TextLayerData {
    /// Owning `Layer.MainId`.
    #[must_use]
    pub fn layer_id(&self) -> (value: i64)
        ensures
            value == self.layer_id,
    {
        self.layer_id
    }

    /// Original `LayerType` value.
    #[must_use]
    pub fn layer_type(&self) -> (value: i64)
        ensures
            value == self.layer_type,
    {
        self.layer_type
    }

    /// Original `TextLayerType` value.
    #[must_use]
    pub fn text_layer_type(&self) -> (value: i64)
        ensures
            value == self.text_layer_type,
    {
        self.text_layer_type
    }

    /// Optional `TextLayerAttributesVersion` value.
    #[must_use]
    pub fn attributes_version(&self) -> (value: Option<i64>)
        ensures
            value == self.attributes_version,
    {
        self.attributes_version
    }

    /// Optional `TextLayerVersion` value.
    #[must_use]
    pub fn version(&self) -> (value: Option<i64>)
        ensures
            value == self.version,
    {
        self.version
    }

    /// Opaque `TextLayerAddAttributesV01` bytes when present.
    #[must_use]
    pub fn additional_attributes(&self) -> (value: Option<&[u8]>)
        ensures
            value is Some == self.additional_attributes is Some,
            value matches Some(value) ==> value@ == self.additional_attributes.unwrap()@,
    {
        match &self.additional_attributes {
            Some(value) => Some(value.as_slice()),
            None => None,
        }
    }

    /// Text objects in their stored order.
    #[must_use]
    pub fn objects(&self) -> (list: &[TextObjectData])
        ensures
            list@ == self.objects@,
    {
        self.objects.as_slice()
    }
}

/// A total with one more part, where a part that is not there adds nothing.
pub open spec fn accounted(
    total: Result<u64, Failure>,
    part: Option<Seq<u8>>,
    limit: u64,
) -> Result<u64, Failure> {
    match (total, part) {
        (Ok(total), Some(part)) => if total + part.len() > u64::MAX {
            Err(Failure::OffsetOverflow)
        } else if total + part.len() > limit {
            Err(
                Failure::LimitExceeded {
                    resource: "text layer bytes"@,
                    value: (total + part.len()) as u64,
                    limit,
                },
            )
        } else {
            Ok((total + part.len()) as u64)
        },
        _ => total,
    }
}

fn account_bytes(total: u64, part: &Vec<u8>, limit: u64) -> (sum: Result<u64, Error>)
    ensures
        error::plain(sum) == accounted(Ok(total), Some(part@), limit),
{
    let sum: u64 = match total.checked_add(part.len() as u64) {
        Some(sum) => sum,
        None => return Err(Error::OffsetOverflow),
    };
    if sum > limit {
        return Err(Error::limit("text layer bytes", sum, limit));
    }
    Ok(sum)
}

fn account_optional(total: u64, part: &Option<Vec<u8>>, limit: u64) -> (sum: Result<u64, Error>)
    ensures
        error::plain(sum) == accounted(Ok(total), error::optional_bytes(*part), limit),
{
    match part {
        Some(part) => account_bytes(total, part, limit),
        None => Ok(total),
    }
}

/// The failure of bytes that encode no text.
pub open spec fn not_text() -> Failure {
    Failure::InvalidDocument { reason: "text layer contains invalid UTF-8"@ }
}

/// The text that bytes encode, which has to be UTF-8.
pub open spec fn stored_text(bytes: Seq<u8>) -> Result<Seq<char>, Failure> {
    match text_codec::utf8_text(bytes) {
        Some(text) => Ok(text),
        None => Err(Failure::InvalidDocument { reason: "text layer contains invalid UTF-8"@ }),
    }
}

fn decode_text(bytes: &Vec<u8>) -> (text: Result<String, Error>)
    ensures
        error::outcome(text) == stored_text(bytes@),
{
    match decode_utf8(bytes.as_slice()) {
        Some(text) => Ok(text),
        None => Err(
            Error::InvalidDocument {
                reason: Message::new("text layer contains invalid UTF-8").build(),
            },
        ),
    }
}

/// Whether all of these bytes encode text.
pub open spec fn all_text(strings: Seq<Seq<u8>>) -> bool {
    forall|i: int| 0 <= i < strings.len() ==> stored_text(#[trigger] strings[i]) is Ok
}

/// The texts that bytes encode.
pub open spec fn texts_of(strings: Seq<Seq<u8>>) -> Seq<Seq<char>> {
    Seq::new(strings.len(), |i: int| stored_text(strings[i])->Ok_0)
}

fn decode_all(strings: &Vec<Vec<u8>>) -> (texts: Result<Vec<String>, Error>)
    ensures
        error::listed(texts) == if all_text(error::views(strings@)) {
            Ok::<Seq<Seq<char>>, Failure>(texts_of(error::views(strings@)))
        } else {
            Err(not_text())
        },
{
    let ghost models = error::views(strings@);
    let mut texts: Vec<String> = Vec::new();
    while texts.len() < strings.len()
        invariant
            texts@.len() <= strings@.len(),
            models == error::views(strings@),
            forall|i: int|
                0 <= i < texts@.len() ==> stored_text(#[trigger] models[i]) == Ok::<
                    Seq<char>,
                    Failure,
                >(texts@[i]@),
        decreases strings@.len() - texts@.len(),
    {
        let at: usize = texts.len();
        assert(models[at as int] == strings@[at as int]@);
        match decode_text(&strings[at]) {
            Ok(text) => texts.push(text),
            Err(error) => {
                assert(stored_text(models[at as int]) is Err);
                return Err(error);
            },
        }
    }
    assert(error::views(texts@) =~= texts_of(models));
    Ok(texts)
}

/// How many objects a layer may have beside the first.
pub open spec fn extra_limit(limits: Limits) -> u64 {
    if limits.max_text_objects == 0 {
        0
    } else {
        (limits.max_text_objects - 1) as u64
    }
}

fn extra_bound(limits: Limits) -> (bound: u64)
    ensures
        bound == extra_limit(limits),
{
    limits.max_text_objects().saturating_sub(1)
}

/// The items of an array that may not be there.
pub open spec fn optional_items(
    array: Option<Seq<u8>>,
    field: Seq<char>,
    max_items: u64,
) -> Result<Seq<Seq<u8>>, Failure> {
    match array {
        None => Ok(Seq::empty()),
        Some(data) => text_arrays::items_of(data, field, max_items),
    }
}

fn split_optional(array: &Option<Vec<u8>>, field: &str, max_items: u64) -> (items: Result<
    Vec<Vec<u8>>,
    Error,
>)
    ensures
        error::listed(items) == optional_items(error::optional_bytes(*array), field@, max_items),
{
    match array {
        Some(data) => split_array(data.as_slice(), field, max_items),
        None => {
            let none: Vec<Vec<u8>> = Vec::new();
            assert(error::views(none@) =~= Seq::<Seq<u8>>::empty());
            Ok(none)
        },
    }
}

/// The failure of too many objects.
pub open spec fn too_many_objects(resource: Seq<char>, count: int, limit: u64) -> Failure {
    Failure::LimitExceeded { resource, value: count as u64, limit }
}

/// An item before others.
pub open spec fn led_by(first: Seq<u8>, rest: Seq<Seq<u8>>) -> Seq<Seq<u8>> {
    seq![first] + rest
}

fn lead(first: Vec<u8>, rest: Vec<Vec<u8>>) -> (all: Vec<Vec<u8>>)
    ensures
        error::views(all@) == led_by(first@, error::views(rest@)),
{
    let mut all = rest;
    let ghost before = all@;
    all.insert(0, first);
    assert(error::views(all@) =~= led_by(first@, error::views(before)));
    all
}

/// What a text layer row holds, once its kind is known.
pub open spec fn text_layer_of(
    layer_id: i64,
    text_layer_type: i64,
    row: Seq<SqlModel>,
    limits: Limits,
) -> Result<TextLayerModel, Failure> {
    let limit = limits.max_text_bytes;
    match sql::bytes_at(row, 1) {
        Err(failure) => Err(failure),
        Ok(first) => match accounted(Ok(0), Some(first), limit) {
            Err(failure) => Err(failure),
            Ok(first_total) => match sql::bytes_at(row, 2) {
                Err(failure) => Err(failure),
                Ok(first_attributes) => match accounted(
                    Ok(first_total),
                    Some(first_attributes),
                    limit,
                ) {
                    Err(failure) => Err(failure),
                    Ok(total) => if limits.max_text_objects == 0 {
                        Err(too_many_objects("text objects per layer"@, 1, 0))
                    } else {
                        match stored_text(first) {
                            Err(failure) => Err(failure),
                            Ok(_) => text_arrays_of(
                                layer_id,
                                text_layer_type,
                                first,
                                first_attributes,
                                total,
                                row,
                                limits,
                            ),
                        }
                    },
                },
            },
        },
    }
}

/// What a text layer row holds, once its first object is known.
pub open spec fn text_arrays_of(
    layer_id: i64,
    text_layer_type: i64,
    first: Seq<u8>,
    first_attributes: Seq<u8>,
    total: u64,
    row: Seq<SqlModel>,
    limits: Limits,
) -> Result<TextLayerModel, Failure> {
    let limit = limits.max_text_bytes;
    match sql::optional_bytes_at(row, 3) {
        Err(failure) => Err(failure),
        Ok(string_array) => match accounted(Ok(total), string_array, limit) {
            Err(failure) => Err(failure),
            Ok(second_total) => match optional_items(
                string_array,
                "TextLayerStringArray"@,
                extra_limit(limits),
            ) {
                Err(failure) => Err(failure),
                Ok(strings) => if !all_text(strings) {
                    Err(not_text())
                } else {
                    match sql::optional_bytes_at(row, 4) {
                        Err(failure) => Err(failure),
                        Ok(attributes_array) => match accounted(
                            Ok(second_total),
                            attributes_array,
                            limit,
                        ) {
                            Err(failure) => Err(failure),
                            Ok(third_total) => match optional_items(
                                attributes_array,
                                "TextLayerAttributesArray"@,
                                extra_limit(limits),
                            ) {
                                Err(failure) => Err(failure),
                                Ok(attributes) => text_objects_of(
                                    layer_id,
                                    text_layer_type,
                                    led_by(first, strings),
                                    led_by(first_attributes, attributes),
                                    third_total,
                                    row,
                                    limits,
                                ),
                            },
                        },
                    }
                },
            },
        },
    }
}

/// What a text layer row holds, once all of its strings and attributes are known.
pub open spec fn text_objects_of(
    layer_id: i64,
    text_layer_type: i64,
    strings: Seq<Seq<u8>>,
    attributes: Seq<Seq<u8>>,
    total: u64,
    row: Seq<SqlModel>,
    limits: Limits,
) -> Result<TextLayerModel, Failure> {
    match sql::optional_bytes_at(row, 5) {
        Err(failure) => Err(failure),
        Ok(additional_attributes) => match accounted(
            Ok(total),
            additional_attributes,
            limits.max_text_bytes,
        ) {
            Err(failure) => Err(failure),
            Ok(_) => if strings.len() > limits.max_text_objects {
                Err(
                    too_many_objects(
                        "text objects per layer"@,
                        strings.len() as int,
                        limits.max_text_objects,
                    ),
                )
            } else if strings.len() != attributes.len() {
                Err(
                    Failure::InvalidDocument {
                        reason: "text layer "@ + message::decimal_signed(layer_id as int) + " has "@
                            + message::decimal(strings.len()) + " strings but "@
                            + message::decimal(attributes.len()) + " attribute records"@,
                    },
                )
            } else {
                match (
                    sql::integer_at(row, 0),
                    sql::optional_integer_at(row, 6),
                    sql::optional_integer_at(row, 7),
                ) {
                    (Ok(layer_type), Ok(attributes_version), Ok(version)) => Ok(
                        TextLayerModel {
                            layer_id,
                            layer_type,
                            text_layer_type,
                            attributes_version,
                            version,
                            additional_attributes,
                            objects: Seq::new(
                                strings.len(),
                                |i: int|
                                    TextObjectModel {
                                        text: stored_text(strings[i])->Ok_0,
                                        attributes: attributes[i],
                                    },
                            ),
                        },
                    ),
                    _ => Err(Failure::Sqlite),
                }
            },
        },
    }
}

/// Reads what a text layer row holds, once its kind is known.
#[verifier::spinoff_prover]
#[verifier::rlimit(40)]
pub fn text_layer_from_row(layer_id: i64, text_layer_type: i64, row: &SqlRow, limits: Limits) -> (
layer: Result<TextLayerData, Error>)
    ensures
        error::outcome(layer) == text_layer_of(layer_id, text_layer_type, row@, limits),
{
    let limit: u64 = limits.max_text_bytes();
    let first = row.bytes(1)?;
    let total: u64 = account_bytes(0, &first, limit)?;
    let first_attributes = row.bytes(2)?;
    let total: u64 = account_bytes(total, &first_attributes, limit)?;
    if limits.max_text_objects() == 0 {
        return Err(Error::limit("text objects per layer", 1, 0));
    }
    let first_text = decode_text(&first)?;
    let string_array = row.optional_bytes(3)?;
    let total: u64 = account_optional(total, &string_array, limit)?;
    let strings = split_optional(&string_array, "TextLayerStringArray", extra_bound(limits))?;
    let mut texts = decode_all(&strings)?;
    let ghost extra = error::views(strings@);
    let ghost extra_texts = error::views(texts@);
    let attributes_array = row.optional_bytes(4)?;
    let total: u64 = account_optional(total, &attributes_array, limit)?;
    let attributes = split_optional(
        &attributes_array,
        "TextLayerAttributesArray",
        extra_bound(limits),
    )?;
    let ghost all_strings = led_by(first@, extra);
    texts.insert(0, first_text);
    let mut attributes = lead(first_attributes, attributes);
    let ghost all_attributes = error::views(attributes@);
    assert(extra_texts.len() == extra.len());
    assert(all_strings.len() == texts@.len());
    assert(all_attributes.len() == attributes@.len());
    let additional_attributes = row.optional_bytes(5)?;
    let _ = account_optional(total, &additional_attributes, limit)?;
    let count: u64 = texts.len() as u64;
    if count > limits.max_text_objects() {
        return Err(Error::limit("text objects per layer", count, limits.max_text_objects()));
    }
    if texts.len() != attributes.len() {
        return Err(
            Error::InvalidDocument {
                reason: Message::new("text layer ").integer(layer_id).text(" has ").number(
                    count,
                ).text(" strings but ").number(attributes.len() as u64).text(
                    " attribute records",
                ).build(),
            },
        );
    }
    let layer_type: i64 = row.integer(0)?;
    let attributes_version = row.optional_integer(6)?;
    let version = row.optional_integer(7)?;
    proof {
        assert forall|i: int| 0 <= i < texts@.len() implies (#[trigger] texts@[i])@ == stored_text(
            all_strings[i],
        )->Ok_0 by {
            if i > 0 {
                assert(texts@[i]@ == extra_texts[i - 1]);
                assert(all_strings[i] == extra[i - 1]);
            }
        }
    }
    let ghost all_texts = texts@;
    let mut objects: Vec<TextObjectData> = Vec::new();
    while texts.len() > 0
        invariant
            texts@.len() == attributes@.len(),
            objects@.len() + texts@.len() == all_texts.len(),
            all_texts.len() == all_attributes.len(),
            forall|i: int|
                0 <= i < texts@.len() ==> #[trigger] texts@[i] == all_texts[objects@.len() + i],
            forall|i: int|
                0 <= i < attributes@.len() ==> (#[trigger] attributes@[i])@
                    == all_attributes[objects@.len() + i],
            forall|i: int|
                0 <= i < objects@.len() ==> (#[trigger] objects@[i])@ == (TextObjectModel {
                    text: all_texts[i]@,
                    attributes: all_attributes[i],
                }),
        decreases texts@.len(),
    {
        let text = texts.remove(0);
        let record = attributes.remove(0);
        objects.push(TextObjectData { text, attributes: record });
    }
    let layer = TextLayerData {
        layer_id,
        layer_type,
        text_layer_type,
        attributes_version,
        version,
        additional_attributes,
        objects,
    };
    assert(layer@.objects =~= Seq::new(
        all_strings.len(),
        |i: int|
            TextObjectModel {
                text: stored_text(all_strings[i])->Ok_0,
                attributes: all_attributes[i],
            },
    ));
    Ok(layer)
}

/// The columns that a text layer needs beside its kind.
pub open spec fn text_columns() -> Seq<Seq<char>> {
    seq!["LayerType"@, "TextLayerString"@, "TextLayerAttributes"@]
}

/// What is asked for a text layer, in order.
pub open spec fn text_items(schema: Seq<database::TableModel>) -> Seq<Seq<char>> {
    seq![
        "LayerType"@,
        "TextLayerString"@,
        "TextLayerAttributes"@,
        database::column_or_null(schema, "Layer"@, "TextLayerStringArray"@),
        database::column_or_null(schema, "Layer"@, "TextLayerAttributesArray"@),
        database::column_or_null(schema, "Layer"@, "TextLayerAddAttributesV01"@),
        database::column_or_null(schema, "Layer"@, "TextLayerAttributesVersion"@),
        database::column_or_null(schema, "Layer"@, "TextLayerVersion"@),
    ]
}

/// The question that asks for a text layer.
pub open spec fn text_question(schema: Seq<database::TableModel>) -> Seq<char> {
    columns::asked(text_items(schema), " FROM Layer WHERE MainId = ?1 LIMIT 1"@)
}

/// The kind of a text layer, if the layer is one.
pub open spec fn text_kind_of(reply: sql::ReplyModel) -> Result<Option<i64>, Failure> {
    match sql::first_row(reply) {
        Err(failure) => Err(failure),
        Ok(None) => Ok(None),
        Ok(Some(row)) => sql::optional_integer_at(row, 0),
    }
}

/// The text layer that a reply holds.
pub open spec fn text_layer_in(
    layer_id: i64,
    text_layer_type: i64,
    reply: sql::ReplyModel,
    limits: Limits,
) -> Result<Option<TextLayerModel>, Failure> {
    match sql::first_row(reply) {
        Err(failure) => Err(failure),
        Ok(None) => Err(
            Failure::InvalidDocument {
                reason: "text layer "@ + message::decimal_signed(layer_id as int)
                    + " disappeared while it was being read"@,
            },
        ),
        Ok(Some(row)) => match text_layer_of(layer_id, text_layer_type, row, limits) {
            Err(failure) => Err(failure),
            Ok(layer) => Ok(Some(layer)),
        },
    }
}

/// Whether reading the columns of a text layer can have this outcome.
pub open spec fn text_columns_read(
    connection: Connection,
    schema: Seq<database::TableModel>,
    layer_id: i64,
    text_layer_type: i64,
    limits: Limits,
    outcome: Result<Option<TextLayerModel>, Failure>,
) -> bool {
    match database::first_missing(schema, "Layer"@, text_columns(), 0) {
        Some(failure) => outcome == Err::<Option<TextLayerModel>, Failure>(failure),
        None => exists|reply: sql::ReplyModel|
            #[trigger] sql::may_answer(
                connection,
                text_question(schema),
                seq![sql::ParameterModel::Integer(layer_id)],
                reply,
            ) && outcome == text_layer_in(layer_id, text_layer_type, reply, limits),
    }
}

/// Whether reading a text layer can have this outcome.
pub open spec fn text_layer_read(
    connection: Connection,
    schema: Seq<database::TableModel>,
    layer_id: i64,
    limits: Limits,
    outcome: Result<Option<TextLayerModel>, Failure>,
) -> bool {
    match database::missing(schema, "Layer"@, "MainId"@) {
        Some(failure) => outcome == Err::<Option<TextLayerModel>, Failure>(failure),
        None => if !database::column_exists(schema, "Layer"@, "TextLayerType"@) {
            outcome == Ok::<Option<TextLayerModel>, Failure>(None)
        } else {
            exists|reply: sql::ReplyModel|
                #[trigger] sql::may_answer(
                    connection,
                    "SELECT TextLayerType FROM Layer WHERE MainId = ?1 LIMIT 1"@,
                    seq![sql::ParameterModel::Integer(layer_id)],
                    reply,
                ) && match text_kind_of(reply) {
                    Err(failure) => outcome == Err::<Option<TextLayerModel>, Failure>(failure),
                    Ok(None) => outcome == Ok::<Option<TextLayerModel>, Failure>(None),
                    Ok(Some(kind)) => text_columns_read(
                        connection,
                        schema,
                        layer_id,
                        kind,
                        limits,
                        outcome,
                    ),
                }
        },
    }
}

impl Database {
    /// Reads the text-specific payload for one layer.
    ///
    /// `TextLayerString` is validated as UTF-8. Additional strings and their
    /// opaque attribute records are read from the observed little-endian
    /// length-prefixed array columns. A non-text layer or an older schema
    /// without text columns returns `None`.
    pub fn text_layer(&self, layer_id: i64, limits: Limits) -> (layer: Result<
        Option<TextLayerData>,
        Error,
    >)
        ensures
            text_layer_read(
                self.connection,
                self.schema@,
                layer_id,
                limits,
                error::optional_outcome(layer),
            ),
    {
        self.schema.require_column("Layer", "MainId")?;
        if !self.schema.has_column("Layer", "TextLayerType") {
            return Ok(None);
        }
        let reply = query_by_id(
            &self.connection,
            "SELECT TextLayerType FROM Layer WHERE MainId = ?1 LIMIT 1",
            layer_id,
        );
        let kind: Option<i64> = match reply.first_row()? {
            Some(row) => row.optional_integer(0)?,
            None => None,
        };
        let kind: i64 = match kind {
            Some(kind) => kind,
            None => return Ok(None),
        };
        let columns: [&str; 3] = ["LayerType", "TextLayerString", "TextLayerAttributes"];
        assert(database::names(columns@) =~= text_columns());
        if let Some(error) = self.schema.first_missing_column("Layer", &columns) {
            return Err(error);
        }
        let asked: [&str; 8] = [
            "LayerType",
            "TextLayerString",
            "TextLayerAttributes",
            self.schema.column_or_null("Layer", "TextLayerStringArray"),
            self.schema.column_or_null("Layer", "TextLayerAttributesArray"),
            self.schema.column_or_null("Layer", "TextLayerAddAttributesV01"),
            self.schema.column_or_null("Layer", "TextLayerAttributesVersion"),
            self.schema.column_or_null("Layer", "TextLayerVersion"),
        ];
        assert(database::names(asked@) =~= text_items(self.schema@));
        let question = columns::ask(&asked, " FROM Layer WHERE MainId = ?1 LIMIT 1");
        let reply = query_by_id(&self.connection, question.as_str(), layer_id);
        assert(sql::may_answer(
            self.connection,
            text_question(self.schema@),
            seq![sql::ParameterModel::Integer(layer_id)],
            reply@,
        ));
        let layer: Result<Option<TextLayerData>, Error> = match reply.first_row() {
            Err(error) => Err(error),
            Ok(None) => Err(
                Error::InvalidDocument {
                    reason: Message::new("text layer ").integer(layer_id).text(
                        " disappeared while it was being read",
                    ).build(),
                },
            ),
            Ok(Some(row)) => match text_layer_from_row(layer_id, kind, row, limits) {
                Ok(layer) => Ok(Some(layer)),
                Err(error) => Err(error),
            },
        };
        assert(text_columns_read(
            self.connection,
            self.schema@,
            layer_id,
            kind,
            limits,
            error::optional_outcome(layer),
        ));
        layer
    }
}

/// The columns of a text layer that edits work on.
#[derive(Clone, Debug, PartialEq, Eq)]
pub struct TextRow {
    pub kind: Option<i64>,
    pub first: Option<Vec<u8>>,
    pub first_attributes: Option<Vec<u8>>,
    pub string_array: Option<Vec<u8>>,
    pub attributes_array: Option<Vec<u8>>,
    pub additional: Option<Vec<u8>>,
}

/// The model of a [`TextRow`].
#[verifier::ext_equal]
pub struct TextRowModel {
    pub kind: Option<i64>,
    pub first: Option<Seq<u8>>,
    pub first_attributes: Option<Seq<u8>>,
    pub string_array: Option<Seq<u8>>,
    pub attributes_array: Option<Seq<u8>>,
    pub additional: Option<Seq<u8>>,
}

impl View for TextRow {
    type V = TextRowModel;

    open spec fn view(&self) -> TextRowModel {
        TextRowModel {
            kind: self.kind,
            first: error::optional_bytes(self.first),
            first_attributes: error::optional_bytes(self.first_attributes),
            string_array: error::optional_bytes(self.string_array),
            attributes_array: error::optional_bytes(self.attributes_array),
            additional: error::optional_bytes(self.additional),
        }
    }
}

impl FromRow for TextRow {
    open spec fn row_model(row: Seq<SqlModel>) -> Result<TextRowModel, Failure> {
        match (
            sql::optional_integer_at(row, 0),
            sql::optional_bytes_at(row, 1),
            sql::optional_bytes_at(row, 2),
            sql::optional_bytes_at(row, 3),
            sql::optional_bytes_at(row, 4),
            sql::optional_bytes_at(row, 5),
        ) {
            (
                Ok(kind),
                Ok(first),
                Ok(first_attributes),
                Ok(string_array),
                Ok(attributes_array),
                Ok(additional),
            ) => Ok(
                TextRowModel {
                    kind,
                    first,
                    first_attributes,
                    string_array,
                    attributes_array,
                    additional,
                },
            ),
            _ => Err(Failure::Sqlite),
        }
    }

    fn read_row(row: &SqlRow) -> (value: Result<TextRow, Error>) {
        Ok(
            TextRow {
                kind: row.optional_integer(0)?,
                first: row.optional_bytes(1)?,
                first_attributes: row.optional_bytes(2)?,
                string_array: row.optional_bytes(3)?,
                attributes_array: row.optional_bytes(4)?,
                additional: row.optional_bytes(5)?,
            },
        )
    }
}

/// The row that a reply holds, where there may be none.
pub open spec fn text_row_of(reply: sql::ReplyModel, absent: Failure) -> Result<
    TextRowModel,
    Failure,
> {
    match sql::first_row(reply) {
        Err(failure) => Err(failure),
        Ok(None) => Err(absent),
        Ok(Some(row)) => TextRow::row_model(row),
    }
}

/// How many layers have an ID.
pub open spec fn layer_count_of(reply: sql::ReplyModel) -> Result<i64, Failure> {
    match sql::only_row(reply) {
        Err(failure) => Err(failure),
        Ok(row) => sql::integer_at(row, 0),
    }
}

/// What is said of a column of the layer table that is missing; `first` stands for a table
/// that is missing.
pub open spec fn column_complaint(
    missing: Failure,
    first: Seq<char>,
    purpose: Seq<char>,
) -> Seq<char> {
    "Layer."@ + (match missing {
        Failure::MissingColumn { column, .. } => column,
        _ => first,
    }) + " is required to "@ + purpose
}

/// What is said of a text layer.
pub open spec fn layer_complaint(layer_id: i64, text: Seq<char>) -> Seq<char> {
    "text layer "@ + message::decimal_signed(layer_id as int) + text
}

/// Whether reading the row of one text layer can have this outcome.
pub open spec fn text_row_read(
    connection: Connection,
    schema: Seq<database::TableModel>,
    layer_id: i64,
    columns: Seq<Seq<char>>,
    question: Seq<char>,
    absent: Failure,
    purpose: Seq<char>,
    outcome: Result<TextRowModel, Failure>,
) -> bool {
    let missing = database::first_missing(schema, "Layer"@, columns, 0);
    if missing is Some {
        outcome == Err::<TextRowModel, Failure>(
            Failure::InvalidWrite {
                reason: column_complaint(missing->Some_0, "MainId"@, purpose),
            },
        )
    } else {
        exists|reply: sql::ReplyModel|
            #[trigger] sql::may_answer(
                connection,
                "SELECT count(*) FROM Layer WHERE MainId = ?1"@,
                seq![sql::ParameterModel::Integer(layer_id)],
                reply,
            ) && match layer_count_of(reply) {
                Err(failure) => outcome == Err::<TextRowModel, Failure>(failure),
                Ok(count) => if count != 1 {
                    outcome == Err::<TextRowModel, Failure>(
                        Failure::InvalidWrite {
                            reason: "expected one text layer with ID "@
                                + message::decimal_signed(layer_id as int) + ", found "@ + message::decimal_signed(count as int),
                        },
                    )
                } else {
                    one_text_row_read(connection, layer_id, question, absent, outcome)
                },
            }
    }
}

/// Whether asking for the row of one text layer can have this outcome.
pub open spec fn one_text_row_read(
    connection: Connection,
    layer_id: i64,
    question: Seq<char>,
    absent: Failure,
    outcome: Result<TextRowModel, Failure>,
) -> bool {
    exists|reply: sql::ReplyModel|
        #[trigger] sql::may_answer(
            connection,
            question,
            seq![sql::ParameterModel::Integer(layer_id)],
            reply,
        ) && outcome == text_row_of(reply, absent)
}

fn column_required(missing: Error, first: &str, purpose: &str) -> (error: Error)
    ensures
        error@ == (Failure::InvalidWrite {
            reason: column_complaint(missing@, first@, purpose@),
        }),
{
    let message = match missing {
        Error::MissingColumn { column, .. } => Message::new("Layer.").text(column.as_str()),
        _ => Message::new("Layer.").text(first),
    };
    invalid_write(message.text(" is required to ").text(purpose))
}

fn read_text_row(
    connection: &Connection,
    schema: &DatabaseSchema,
    layer_id: i64,
    columns: &[&str],
    question: &str,
    may_be_absent: bool,
    purpose: &str,
) -> (row: Result<TextRow, Error>)
    ensures
        text_row_read(
            *connection,
            schema@,
            layer_id,
            database::names(columns@),
            question@,
            if may_be_absent {
                Failure::InvalidWrite { reason: layer_complaint(layer_id, " does not exist"@) }
            } else {
                Failure::Sqlite
            },
            purpose@,
            error::outcome(row),
        ),
{
    if let Some(error) = schema.first_missing_column("Layer", columns) {
        return Err(column_required(error, "MainId", purpose));
    }
    let reply = query_by_id(connection, "SELECT count(*) FROM Layer WHERE MainId = ?1", layer_id);
    let count: i64 = reply.only_row()?.integer(0)?;
    if count != 1 {
        return Err(
            invalid_write(
                Message::new("expected one text layer with ID ").integer(layer_id).text(
                    ", found ",
                ).integer(count),
            ),
        );
    }
    let reply = query_by_id(connection, question, layer_id);
    let ghost absent = if may_be_absent {
        Failure::InvalidWrite { reason: layer_complaint(layer_id, " does not exist"@) }
    } else {
        Failure::Sqlite
    };
    let row: Result<TextRow, Error> = match reply.first_row() {
        Err(error) => Err(error),
        Ok(Some(row)) => TextRow::read_row(row),
        Ok(None) => if may_be_absent {
            Err(
                invalid_write(
                    Message::new("text layer ").integer(layer_id).text(" does not exist"),
                ),
            )
        } else {
            Err(Error::Sqlite { reason: Message::new("Query returned no rows").build() })
        },
    };
    assert(
        sql::may_answer(
            *connection,
            question@,
            seq![sql::ParameterModel::Integer(layer_id)],
            reply@,
        )
    );
    assert(one_text_row_read(*connection, layer_id, question@, absent, error::outcome(row)));
    row
}

/// Whether a statement that should change one row can have this outcome.
pub open spec fn one_row_changed<T>(
    connection: Connection,
    layer_id: i64,
    statement: Seq<char>,
    parameters: Seq<sql::ParameterModel>,
    value: T,
    outcome: Result<T, Failure>,
) -> bool {
    exists|changed: Option<usize>|
        #[trigger] sql::may_change(
            connection,
            statement,
            parameters,
            changed,
        ) && outcome == match changed {
            None => Err::<T, Failure>(Failure::Sqlite),
            Some(count) => if count == 1 {
                Ok(value)
            } else {
                Err(Failure::InvalidWrite { reason: layer_complaint(layer_id, " is not unique"@) })
            },
        }
}

fn change_one_row(
    connection: &Connection,
    statement: &str,
    parameters: &Vec<SqlParameter>,
    layer_id: i64,
) -> (result: Result<(), Error>)
    ensures
        one_row_changed(
            *connection,
            layer_id,
            statement@,
            error::views(parameters@),
            (),
            error::plain(result),
        ),
{
    let changed = execute(connection, statement, parameters);
    assert(sql::may_change(
        *connection,
        statement@,
        error::views(parameters@),
        match changed {
            Ok(count) => Some(count),
            Err(_) => None,
        },
    ));
    let count: usize = changed?;
    if count != 1 {
        return Err(
            invalid_write(Message::new("text layer ").integer(layer_id).text(" is not unique")),
        );
    }
    Ok(())
}

/// The strings and attribute records of a text layer, the primary ones first, and how
/// many bytes its columns take.
#[verifier::ext_equal]
pub struct TextParts {
    pub total: u64,
    pub strings: Seq<Seq<u8>>,
    pub attributes: Seq<Seq<u8>>,
}

/// What is said of a row that lacks one of its parts.
pub open spec fn absence_complaint(layer_id: i64, row: TextRowModel) -> Seq<char> {
    if row.kind is None {
        "layer "@ + message::decimal_signed(layer_id as int) + " is not a text layer"@
    } else if row.first is None {
        layer_complaint(layer_id, " has no primary string"@)
    } else if row.first_attributes is None {
        layer_complaint(layer_id, " has no primary attribute record"@)
    } else {
        layer_complaint(layer_id, " has no TextLayerAddAttributesV01 array"@)
    }
}

/// What is said of further strings and attribute records that are not as many.
pub open spec fn uneven_complaint(layer_id: i64, strings: nat, attributes: nat) -> Seq<char> {
    layer_complaint(layer_id, " has "@) + message::decimal(error::one_more(strings) as nat)
        + " strings but "@ + message::decimal(error::one_more(attributes) as nat)
        + " attribute records"@
}

/// What is said of objects and additional attribute records that are not as many.
pub open spec fn additions_complaint(layer_id: i64, objects: nat, additions: nat) -> Seq<char> {
    layer_complaint(layer_id, " has "@) + message::decimal(objects) + " text objects but "@
        + message::decimal(additions) + " additional attribute records"@
}

/// What is said of an index past the objects of a layer.
pub open spec fn index_complaint(
    layer_id: i64,
    objects: nat,
    what: Seq<char>,
    index: nat,
) -> Seq<char> {
    layer_complaint(layer_id, " has "@) + message::decimal(objects) + what + message::decimal(
        index,
    ) + " is invalid"@
}

/// What a replacement works on.
pub open spec fn replaceable_parts(layer_id: i64, row: TextRowModel, limits: Limits) -> Result<
    TextParts,
    Failure,
> {
    let limit = limits.max_text_bytes;
    match (row.kind, row.first, row.first_attributes) {
        (Some(_), Some(first), Some(first_attributes)) => match accounted(
            accounted(
                accounted(accounted(Ok(0), row.first, limit), row.first_attributes, limit),
                row.additional,
                limit,
            ),
            row.string_array,
            limit,
        ) {
            Err(failure) => Err(failure),
            Ok(before) => match optional_items(
                row.string_array,
                "TextLayerStringArray"@,
                extra_limit(limits),
            ) {
                Err(failure) => Err(failure),
                Ok(strings) => match accounted(Ok(before), row.attributes_array, limit) {
                    Err(failure) => Err(failure),
                    Ok(total) => match optional_items(
                        row.attributes_array,
                        "TextLayerAttributesArray"@,
                        extra_limit(limits),
                    ) {
                        Err(failure) => Err(failure),
                        Ok(attributes) => if strings.len() != attributes.len() {
                            Err(
                                Failure::InvalidWrite {
                                    reason: uneven_complaint(
                                        layer_id,
                                        strings.len(),
                                        attributes.len(),
                                    ),
                                },
                            )
                        } else if strings.len() + 1 > limits.max_text_objects {
                            Err(
                                too_many_objects(
                                    "text objects per layer"@,
                                    strings.len() + 1int,
                                    limits.max_text_objects,
                                ),
                            )
                        } else {
                            Ok(
                                TextParts {
                                    total,
                                    strings: led_by(first, strings),
                                    attributes: led_by(first_attributes, attributes),
                                },
                            )
                        },
                    },
                },
            },
        },
        _ => Err(Failure::InvalidWrite { reason: absence_complaint(layer_id, row) }),
    }
}

/// What a change of a string does: nothing, or new bytes for a column.
#[derive(Clone, Debug, PartialEq, Eq)]
pub enum TextUpdate {
    /// The text stays as it is.
    Nothing,
    /// The primary string changes.
    Primary(Vec<u8>),
    /// The array of the other strings changes.
    Array(Vec<u8>),
}

/// The model of a [`TextUpdate`].
#[verifier::ext_equal]
pub enum UpdateModel {
    Nothing,
    Primary(Seq<u8>),
    Array(Seq<u8>),
}

impl View for TextUpdate {
    type V = UpdateModel;

    open spec fn view(&self) -> UpdateModel {
        match *self {
            TextUpdate::Nothing => UpdateModel::Nothing,
            TextUpdate::Primary(data) => UpdateModel::Primary(data@),
            TextUpdate::Array(data) => UpdateModel::Array(data@),
        }
    }
}

/// A planned replacement: the text before, and what changes.
pub struct TextReplacement {
    pub original: String,
    pub update: TextUpdate,
}

/// The model of a [`TextReplacement`].
#[verifier::ext_equal]
pub struct ReplacementModel {
    pub original: Seq<char>,
    pub update: UpdateModel,
}

impl View for TextReplacement {
    type V = ReplacementModel;

    open spec fn view(&self) -> ReplacementModel {
        ReplacementModel { original: self.original@, update: self.update@ }
    }
}

/// The change that puts a text in place of another.
pub open spec fn update_of(
    strings: Seq<Seq<u8>>,
    index: int,
    replacement: Seq<char>,
    limits: Limits,
) -> Result<UpdateModel, Failure> {
    let data = utf8::encode_utf8(replacement);
    let items = strings.skip(1).update(index - 1, data);
    if stored_text(strings[index]) == Ok::<Seq<char>, Failure>(replacement) {
        Ok(UpdateModel::Nothing)
    } else if index == 0 {
        Ok(UpdateModel::Primary(data))
    } else if !text_arrays::items_fit(items) {
        Err(Failure::OffsetOverflow)
    } else if text_arrays::array_bytes(items).len() > limits.max_text_bytes {
        Err(
            Failure::LimitExceeded {
                resource: "replacement text array bytes"@,
                value: text_arrays::array_bytes(items).len() as u64,
                limit: limits.max_text_bytes,
            },
        )
    } else {
        Ok(UpdateModel::Array(text_arrays::array_bytes(items)))
    }
}

/// The replacement of one text by another.
pub open spec fn replacement_of(
    layer_id: i64,
    row: TextRowModel,
    index: int,
    replacement: Seq<char>,
    limits: Limits,
) -> Result<ReplacementModel, Failure> {
    match replaceable_parts(layer_id, row, limits) {
        Err(failure) => Err(failure),
        Ok(parts) => {
            let original = parts.strings[index];
            let size = utf8::encode_utf8(replacement).len();
            if index >= parts.strings.len() {
                Err(
                    Failure::InvalidWrite {
                        reason: index_complaint(
                            layer_id,
                            parts.strings.len(),
                            " objects, so index "@,
                            index as nat,
                        ),
                    },
                )
            } else if !all_text(parts.strings) {
                Err(not_text())
            } else if size > limits.max_text_bytes {
                Err(
                    Failure::LimitExceeded {
                        resource: "replacement text bytes"@,
                        value: size as u64,
                        limit: limits.max_text_bytes,
                    },
                )
            } else if parts.total < original.len() || parts.total - original.len() + size
                > u64::MAX {
                Err(Failure::OffsetOverflow)
            } else if parts.total - original.len() + size > limits.max_text_bytes {
                Err(
                    Failure::LimitExceeded {
                        resource: "text layer bytes after replacement"@,
                        value: (parts.total - original.len() + size) as u64,
                        limit: limits.max_text_bytes,
                    },
                )
            } else if !text_arrays::same_widths(stored_text(original)->Ok_0, replacement) {
                Err(
                    Failure::InvalidWrite {
                        reason: "text object replacement must preserve every character's UTF-8 and UTF-16 encoded width"@,
                    },
                )
            } else {
                match update_of(parts.strings, index, replacement, limits) {
                    Err(failure) => Err(failure),
                    Ok(update) => Ok(
                        ReplacementModel { original: stored_text(original)->Ok_0, update },
                    ),
                }
            }
        },
    }
}

/// A replacement changes one string: the array that it writes reads back as the strings
/// before, but for the one at the index.
pub proof fn replacement_changes_one_string(
    layer_id: i64,
    row: TextRowModel,
    index: int,
    replacement: Seq<char>,
    limits: Limits,
)
    requires
        0 <= index,
        replacement_of(layer_id, row, index, replacement, limits) is Ok,
    ensures
        ({
            let strings = replaceable_parts(layer_id, row, limits)->Ok_0.strings;
            let data = utf8::encode_utf8(replacement);
            match replacement_of(layer_id, row, index, replacement, limits)->Ok_0.update {
                UpdateModel::Nothing => stored_text(strings[index]) == Ok::<Seq<char>, Failure>(
                    replacement,
                ),
                UpdateModel::Primary(bytes) => index == 0 && bytes == data,
                UpdateModel::Array(bytes) => index > 0 && text_arrays::items_of(
                    bytes,
                    "TextLayerStringArray"@,
                    extra_limit(limits),
                ) == Ok::<Seq<Seq<u8>>, Failure>(strings.skip(1).update(index - 1, data)),
            }
        }),
{
    let parts = replaceable_parts(layer_id, row, limits)->Ok_0;
    let items = parts.strings.skip(1).update(index - 1, utf8::encode_utf8(replacement));
    if replacement_of(layer_id, row, index, replacement, limits)->Ok_0.update is Array {
        text_arrays::written_items_read_back(items, "TextLayerStringArray"@, extra_limit(limits));
    }
}

/// A replacement takes as many bytes as the text before.
pub proof fn replacement_keeps_size(
    layer_id: i64,
    row: TextRowModel,
    index: int,
    replacement: Seq<char>,
    limits: Limits,
)
    requires
        0 <= index,
        replacement_of(layer_id, row, index, replacement, limits) is Ok,
    ensures
        utf8::encode_utf8(replacement).len() == replaceable_parts(
            layer_id,
            row,
            limits,
        )->Ok_0.strings[index].len(),
{
    let original = replaceable_parts(layer_id, row, limits)->Ok_0.strings[index];
    assert(stored_text(original) is Ok);
    text_arrays::same_widths_same_size(stored_text(original)->Ok_0, replacement);
    utf8::decode_utf8_encode_utf8(original);
}

/// The strings and attribute records of a text layer.
pub struct TextPieces {
    pub total: u64,
    pub strings: Vec<Vec<u8>>,
    pub attributes: Vec<Vec<u8>>,
}

impl View for TextPieces {
    type V = TextParts;

    open spec fn view(&self) -> TextParts {
        TextParts {
            total: self.total,
            strings: error::views(self.strings@),
            attributes: error::views(self.attributes@),
        }
    }
}

fn layer_message(layer_id: i64, text: &str) -> (error: Error)
    ensures
        error@ == (Failure::InvalidWrite { reason: layer_complaint(layer_id, text@) }),
{
    invalid_write(Message::new("text layer ").integer(layer_id).text(text))
}

fn uneven_records(layer_id: i64, strings: u64, attributes: u64) -> (error: Error)
    ensures
        error@ == (Failure::InvalidWrite {
            reason: uneven_complaint(layer_id, strings as nat, attributes as nat),
        }),
{
    invalid_write(
        Message::new("text layer ").integer(layer_id).text(" has ").number(
            strings.saturating_add(1),
        ).text(" strings but ").number(attributes.saturating_add(1)).text(" attribute records"),
    )
}

fn uneven_additions(layer_id: i64, objects: u64, additions: u64) -> (error: Error)
    ensures
        error@ == (Failure::InvalidWrite {
            reason: additions_complaint(layer_id, objects as nat, additions as nat),
        }),
{
    invalid_write(
        Message::new("text layer ").integer(layer_id).text(" has ").number(objects).text(
            " text objects but ",
        ).number(additions).text(" additional attribute records"),
    )
}

fn no_object(layer_id: i64, objects: u64, what: &str, index: u64) -> (error: Error)
    ensures
        error@ == (Failure::InvalidWrite {
            reason: index_complaint(layer_id, objects as nat, what@, index as nat),
        }),
{
    invalid_write(
        Message::new("text layer ").integer(layer_id).text(" has ").number(objects).text(
            what,
        ).number(index).text(" is invalid"),
    )
}

fn replaceable(row: &TextRow, layer_id: i64, limits: Limits) -> (pieces: Result<TextPieces, Error>)
    ensures
        error::outcome(pieces) == replaceable_parts(layer_id, row@, limits),
{
    let limit: u64 = limits.max_text_bytes();
    if row.kind.is_none() {
        return Err(
            invalid_write(Message::new("layer ").integer(layer_id).text(" is not a text layer")),
        );
    }
    let first = match &row.first {
        Some(first) => copy_all(first),
        None => return Err(layer_message(layer_id, " has no primary string")),
    };
    let first_attributes = match &row.first_attributes {
        Some(attributes) => copy_all(attributes),
        None => return Err(layer_message(layer_id, " has no primary attribute record")),
    };
    let total: u64 = account_bytes(0, &first, limit)?;
    let total: u64 = account_bytes(total, &first_attributes, limit)?;
    let total: u64 = account_optional(total, &row.additional, limit)?;
    let total: u64 = account_optional(total, &row.string_array, limit)?;
    let strings = split_optional(&row.string_array, "TextLayerStringArray", extra_bound(limits))?;
    let total: u64 = account_optional(total, &row.attributes_array, limit)?;
    let attributes = split_optional(
        &row.attributes_array,
        "TextLayerAttributesArray",
        extra_bound(limits),
    )?;
    if strings.len() != attributes.len() {
        return Err(uneven_records(layer_id, strings.len() as u64, attributes.len() as u64));
    }
    let count: u64 = strings.len() as u64;
    if count >= limits.max_text_objects() {
        proof {
            object_count_bound(row@.string_array, "TextLayerStringArray"@, extra_limit(limits));
        }
        return Err(
            Error::limit("text objects per layer", count + 1, limits.max_text_objects()),
        );
    }
    Ok(
        TextPieces {
            total,
            strings: lead(first, strings),
            attributes: lead(first_attributes, attributes),
        },
    )
}

proof fn object_count_bound(array: Option<Seq<u8>>, field: Seq<char>, max_items: u64)
    ensures
        optional_items(array, field, max_items) matches Ok(items) ==> items.len() <= max_items,
{
    if let Some(data) = array {
        item_count_bound(data, field, max_items, 0, Seq::empty());
    }
}

proof fn item_count_bound(
    data: Seq<u8>,
    field: Seq<char>,
    max_items: u64,
    at: int,
    found: Seq<Seq<u8>>,
)
    requires
        0 <= at,
        found.len() <= max_items,
    ensures
        text_arrays::items_from(data, field, max_items, at, found) matches Ok(items) ==> items.len()
            <= max_items,
    decreases data.len() - at,
{
    if at < data.len() && text_arrays::items_from(data, field, max_items, at, found) is Ok {
        let end = at + 4 + crate::bytes::le32(data, at);
        item_count_bound(data, field, max_items, end, found.push(data.subrange(at + 4, end)));
    }
}

/// Plans the replacement of one text by another.
#[verifier::spinoff_prover]
#[verifier::rlimit(40)]
pub fn plan_replacement(
    row: &TextRow,
    layer_id: i64,
    index: usize,
    replacement: &str,
    limits: Limits,
) -> (plan: Result<TextReplacement, Error>)
    ensures
        error::outcome(plan) == replacement_of(layer_id, row@, index as int, replacement@, limits),
{
    let limit: u64 = limits.max_text_bytes();
    let mut pieces = replaceable(row, layer_id, limits)?;
    let ghost parts = pieces@;
    if index >= pieces.strings.len() {
        return Err(
            no_object(
                layer_id,
                pieces.strings.len() as u64,
                " objects, so index ",
                index as u64,
            ),
        );
    }
    let mut texts = decode_all(&pieces.strings)?;
    assert(error::views(texts@).len() == parts.strings.len());
    let data: &[u8] = replacement.as_bytes();
    assert(data.len() == data@.len());
    let size: u64 = data.len() as u64;
    if size > limit {
        return Err(Error::limit("replacement text bytes", size, limit));
    }
    assert(parts.strings[index as int] == pieces.strings@[index as int]@);
    let before: u64 = pieces.strings[index].len() as u64;
    if pieces.total < before {
        return Err(Error::OffsetOverflow);
    }
    let updated: u64 = match (pieces.total - before).checked_add(size) {
        Some(updated) => updated,
        None => return Err(Error::OffsetOverflow),
    };
    if updated > limit {
        return Err(Error::limit("text layer bytes after replacement", updated, limit));
    }
    let ghost all_texts = error::views(texts@);
    let original = texts.remove(index);
    assert(original@ == all_texts[index as int]);
    if !same_character_encoding_widths(original.as_str(), replacement) {
        return Err(
            invalid_write(
                Message::new(
                    "text object replacement must preserve every character's UTF-8 and UTF-16 encoded width",
                ),
            ),
        );
    }
    if same_text(original.as_str(), replacement) {
        return Ok(TextReplacement { original, update: TextUpdate::Nothing });
    }
    let bytes = copy_bytes(data, 0, data.len());
    assert(bytes@ =~= utf8::encode_utf8(replacement@));
    if index == 0 {
        return Ok(TextReplacement { original, update: TextUpdate::Primary(bytes) });
    }
    pieces.strings.set(index, bytes);
    let _ = pieces.strings.remove(0);
    assert(error::views(pieces.strings@) =~= parts.strings.skip(1).update(
        index - 1,
        utf8::encode_utf8(replacement@),
    ));
    let encoded = encode_array(pieces.strings.as_slice())?;
    let length: u64 = encoded.len() as u64;
    if length > limit {
        return Err(Error::limit("replacement text array bytes", length, limit));
    }
    Ok(TextReplacement { original, update: TextUpdate::Array(encoded) })
}

/// The columns that a replacement needs.
pub open spec fn replacement_columns() -> Seq<Seq<char>> {
    seq!["MainId"@, "TextLayerType"@, "TextLayerString"@, "TextLayerAttributes"@]
}

/// What is asked for a replacement, in order.
pub open spec fn replacement_items(schema: Seq<database::TableModel>) -> Seq<Seq<char>> {
    seq![
        "TextLayerType"@,
        "TextLayerString"@,
        "TextLayerAttributes"@,
        database::column_or_null(schema, "Layer"@, "TextLayerStringArray"@),
        database::column_or_null(schema, "Layer"@, "TextLayerAttributesArray"@),
        database::column_or_null(schema, "Layer"@, "TextLayerAddAttributesV01"@),
    ]
}

/// The question that a replacement asks.
pub open spec fn replacement_question(schema: Seq<database::TableModel>) -> Seq<char> {
    columns::asked(replacement_items(schema), " FROM Layer WHERE MainId = ?1 LIMIT 1"@)
}

/// Whether carrying out a replacement can have this outcome.
pub open spec fn replacement_applied(
    connection: Connection,
    layer_id: i64,
    plan: ReplacementModel,
    outcome: Result<Seq<char>, Failure>,
) -> bool {
    match plan.update {
        UpdateModel::Nothing => outcome == Ok::<Seq<char>, Failure>(plan.original),
        UpdateModel::Primary(data) => one_row_changed(
            connection,
            layer_id,
            "UPDATE Layer SET TextLayerString = ?1 WHERE MainId = ?2"@,
            seq![sql::ParameterModel::Blob(data), sql::ParameterModel::Integer(layer_id)],
            plan.original,
            outcome,
        ),
        UpdateModel::Array(data) => one_row_changed(
            connection,
            layer_id,
            "UPDATE Layer SET TextLayerStringArray = ?1 WHERE MainId = ?2"@,
            seq![sql::ParameterModel::Blob(data), sql::ParameterModel::Integer(layer_id)],
            plan.original,
            outcome,
        ),
    }
}

/// Whether replacing a text can have this outcome.
pub open spec fn text_replaced(
    connection: Connection,
    schema: Seq<database::TableModel>,
    layer_id: i64,
    index: int,
    replacement: Seq<char>,
    limits: Limits,
    outcome: Result<Seq<char>, Failure>,
) -> bool {
    exists|row: Result<TextRowModel, Failure>|
        #[trigger] text_row_read(
            connection,
            schema,
            layer_id,
            replacement_columns(),
            replacement_question(schema),
            Failure::InvalidWrite { reason: layer_complaint(layer_id, " does not exist"@) },
            "edit text"@,
            row,
        ) && match row {
            Err(failure) => outcome == Err::<Seq<char>, Failure>(failure),
            Ok(row) => match replacement_of(layer_id, row, index, replacement, limits) {
                Err(failure) => outcome == Err::<Seq<char>, Failure>(failure),
                Ok(plan) => replacement_applied(connection, layer_id, plan, outcome),
            },
        }
}

fn apply_replacement(connection: &Connection, layer_id: i64, plan: TextReplacement) -> (original:
    Result<String, Error>)
    ensures
        replacement_applied(*connection, layer_id, plan@, error::outcome(original)),
{
    let ghost model = plan@;
    let mut parameters: Vec<SqlParameter> = Vec::new();
    let result = match plan.update {
        TextUpdate::Nothing => return Ok(plan.original),
        TextUpdate::Primary(data) => {
            parameters.push(SqlParameter::Blob(data));
            parameters.push(SqlParameter::Integer(layer_id));
            assert(error::views(parameters@) =~= seq![
                sql::ParameterModel::Blob(data@),
                sql::ParameterModel::Integer(layer_id),
            ]);
            change_one_row(
                connection,
                "UPDATE Layer SET TextLayerString = ?1 WHERE MainId = ?2",
                &parameters,
                layer_id,
            )
        },
        TextUpdate::Array(data) => {
            parameters.push(SqlParameter::Blob(data));
            parameters.push(SqlParameter::Integer(layer_id));
            assert(error::views(parameters@) =~= seq![
                sql::ParameterModel::Blob(data@),
                sql::ParameterModel::Integer(layer_id),
            ]);
            change_one_row(
                connection,
                "UPDATE Layer SET TextLayerStringArray = ?1 WHERE MainId = ?2",
                &parameters,
                layer_id,
            )
        },
    };
    match result {
        Ok(()) => Ok(plan.original),
        Err(error) => Err(error),
    }
}

/// Replaces the UTF-8 text of one existing object in a text layer.
pub fn replace_text_object_text(
    connection: &Connection,
    schema: &DatabaseSchema,
    layer_id: i64,
    object_index: usize,
    replacement: &str,
    limits: Limits,
) -> (original: Result<String, Error>)
    ensures
        text_replaced(
            *connection,
            schema@,
            layer_id,
            object_index as int,
            replacement@,
            limits,
            error::outcome(original),
        ),
{
    let columns: [&str; 4] = [
        "MainId",
        "TextLayerType",
        "TextLayerString",
        "TextLayerAttributes",
    ];
    assert(database::names(columns@) =~= replacement_columns());
    let asked: [&str; 6] = [
        "TextLayerType",
        "TextLayerString",
        "TextLayerAttributes",
        schema.column_or_null("Layer", "TextLayerStringArray"),
        schema.column_or_null("Layer", "TextLayerAttributesArray"),
        schema.column_or_null("Layer", "TextLayerAddAttributesV01"),
    ];
    assert(database::names(asked@) =~= replacement_items(schema@));
    let question = columns::ask(&asked, " FROM Layer WHERE MainId = ?1 LIMIT 1");
    let row = read_text_row(
        connection,
        schema,
        layer_id,
        &columns,
        question.as_str(),
        true,
        "edit text",
    );
    assert(text_row_read(
        *connection,
        schema@,
        layer_id,
        replacement_columns(),
        replacement_question(schema@),
        Failure::InvalidWrite { reason: layer_complaint(layer_id, " does not exist"@) },
        "edit text"@,
        error::outcome(row),
    ));
    let row = row?;
    let plan = plan_replacement(&row, layer_id, object_index, replacement, limits)?;
    apply_replacement(connection, layer_id, plan)
}

/// The total bytes of a row that has all of its parts.
pub open spec fn row_total(row: TextRowModel, limit: u64) -> Result<u64, Failure> {
    accounted(
        accounted(
            accounted(
                accounted(accounted(Ok(0), row.first, limit), row.first_attributes, limit),
                row.string_array,
                limit,
            ),
            row.attributes_array,
            limit,
        ),
        row.additional,
        limit,
    )
}

/// The strings and attribute records of a row that has all of its parts.
pub open spec fn paired_parts(
    layer_id: i64,
    row: TextRowModel,
    limits: Limits,
) -> Result<TextParts, Failure> {
    match (row.kind, row.first, row.first_attributes, row.additional) {
        (Some(_), Some(first), Some(first_attributes), Some(_)) => match row_total(
            row,
            limits.max_text_bytes,
        ) {
            Err(failure) => Err(failure),
            Ok(total) => match optional_items(
                row.string_array,
                "TextLayerStringArray"@,
                extra_limit(limits),
            ) {
                Err(failure) => Err(failure),
                Ok(strings) => match optional_items(
                    row.attributes_array,
                    "TextLayerAttributesArray"@,
                    extra_limit(limits),
                ) {
                    Err(failure) => Err(failure),
                    Ok(attributes) => if strings.len() != attributes.len() {
                        Err(
                            Failure::InvalidWrite {
                                reason: uneven_complaint(
                                    layer_id,
                                    strings.len(),
                                    attributes.len(),
                                ),
                            },
                        )
                    } else {
                        Ok(
                            TextParts {
                                total,
                                strings: led_by(first, strings),
                                attributes: led_by(first_attributes, attributes),
                            },
                        )
                    },
                },
            },
        },
        _ => Err(Failure::InvalidWrite { reason: absence_complaint(layer_id, row) }),
    }
}

fn paired(row: &TextRow, layer_id: i64, limits: Limits) -> (pieces: Result<TextPieces, Error>)
    ensures
        error::outcome(pieces) == paired_parts(layer_id, row@, limits),
{
    let limit: u64 = limits.max_text_bytes();
    if row.kind.is_none() {
        return Err(
            invalid_write(Message::new("layer ").integer(layer_id).text(" is not a text layer")),
        );
    }
    let first = match &row.first {
        Some(first) => copy_all(first),
        None => return Err(layer_message(layer_id, " has no primary string")),
    };
    let first_attributes = match &row.first_attributes {
        Some(attributes) => copy_all(attributes),
        None => return Err(layer_message(layer_id, " has no primary attribute record")),
    };
    if row.additional.is_none() {
        return Err(layer_message(layer_id, " has no TextLayerAddAttributesV01 array"));
    }
    let total: u64 = account_bytes(0, &first, limit)?;
    let total: u64 = account_bytes(total, &first_attributes, limit)?;
    let total: u64 = account_optional(total, &row.string_array, limit)?;
    let total: u64 = account_optional(total, &row.attributes_array, limit)?;
    let total: u64 = account_optional(total, &row.additional, limit)?;
    let strings = split_optional(&row.string_array, "TextLayerStringArray", extra_bound(limits))?;
    let attributes = split_optional(
        &row.attributes_array,
        "TextLayerAttributesArray",
        extra_bound(limits),
    )?;
    if strings.len() != attributes.len() {
        return Err(uneven_records(layer_id, strings.len() as u64, attributes.len() as u64));
    }
    Ok(
        TextPieces {
            total,
            strings: lead(first, strings),
            attributes: lead(first_attributes, attributes),
        },
    )
}

/// What is said of an object whose two records hold different identifiers.
pub open spec fn identifier_complaint(index: int, own: u32, other: u32) -> Seq<char> {
    "text object "@ + message::decimal(index as nat) + " has identifier "@ + message::decimal(
        own as nat,
    ) + " but its additional attribute record uses "@ + message::decimal(other as nat)
}

/// Whether the attribute records from `at` on hold the identifiers of their additional
/// records.
pub open spec fn identifiers_agree(
    attributes: Seq<Seq<u8>>,
    additional: Seq<Seq<u8>>,
    at: int,
) -> Result<(), Failure>
    decreases attributes.len() - at,
{
    if at >= attributes.len() {
        Ok(())
    } else {
        match text_arrays::identifier_of(attributes[at]) {
            Err(failure) => Err(failure),
            Ok(own) => match text_arrays::identifier_of(additional[at]) {
                Err(failure) => Err(failure),
                Ok(other) => if own.0 != other.0 {
                    Err(
                        Failure::InvalidWrite {
                            reason: identifier_complaint(at, own.0, other.0),
                        },
                    )
                } else {
                    identifiers_agree(attributes, additional, at + 1)
                },
            },
        }
    }
}

fn mismatched_identifier(index: usize, own: u32, other: u32) -> (error: Error)
    ensures
        error@ == (Failure::InvalidWrite {
            reason: identifier_complaint(index as int, own, other),
        }),
{
    invalid_write(
        Message::new("text object ").number(index as u64).text(" has identifier ").number(
            own as u64,
        ).text(" but its additional attribute record uses ").number(other as u64),
    )
}

fn check_identifiers(attributes: &Vec<Vec<u8>>, additional: &Vec<Vec<u8>>) -> (result: Result<
    (),
    Error,
>)
    requires
        attributes@.len() == additional@.len(),
    ensures
        error::plain(result) == identifiers_agree(
            error::views(attributes@),
            error::views(additional@),
            0,
        ),
{
    let ghost own_models = error::views(attributes@);
    let ghost other_models = error::views(additional@);
    let mut at: usize = 0;
    while at < attributes.len()
        invariant
            at <= attributes@.len(),
            attributes@.len() == additional@.len(),
            own_models == error::views(attributes@),
            other_models == error::views(additional@),
            identifiers_agree(own_models, other_models, 0) == identifiers_agree(
                own_models,
                other_models,
                at as int,
            ),
        decreases attributes@.len() - at,
    {
        assert(own_models[at as int] == attributes@[at as int]@);
        assert(other_models[at as int] == additional@[at as int]@);
        let (own, _) = text_attribute_identifier(attributes[at].as_slice())?;
        let (other, _) = text_attribute_identifier(additional[at].as_slice())?;
        if own != other {
            return Err(mismatched_identifier(at, own, other));
        }
        at = at + 1;
    }
    Ok(())
}

/// What an addition works on: the parts of the row, and the additional records.
#[verifier::ext_equal]
pub struct AdditionParts {
    pub parts: TextParts,
    pub additional: Seq<Seq<u8>>,
}

/// The row of a text layer that a template can be taken from.
pub open spec fn template_parts(
    layer_id: i64,
    row: TextRowModel,
    template_index: int,
    replacement: Seq<char>,
    limits: Limits,
) -> Result<AdditionParts, Failure> {
    match paired_parts(layer_id, row, limits) {
        Err(failure) => Err(failure),
        Ok(parts) => {
            let count = parts.strings.len() as int;
            match optional_items(
                row.additional,
                "TextLayerAddAttributesV01"@,
                limits.max_text_objects,
            ) {
                Err(failure) => Err(failure),
                Ok(additional) => if additional.len() != count {
                    Err(
                        Failure::InvalidWrite {
                            reason: additions_complaint(layer_id, count as nat, additional.len()),
                        },
                    )
                } else if count + 1 > usize::MAX {
                    Err(Failure::OffsetOverflow)
                } else if count + 1 > limits.max_text_objects {
                    Err(
                        too_many_objects(
                            "text objects per layer after addition"@,
                            count + 1,
                            limits.max_text_objects,
                        ),
                    )
                } else if template_index >= count {
                    Err(
                        Failure::InvalidWrite {
                            reason: index_complaint(
                                layer_id,
                                count as nat,
                                " objects, so template index "@,
                                template_index as nat,
                            ),
                        },
                    )
                } else if !all_text(parts.strings) {
                    Err(not_text())
                } else if !text_arrays::same_widths(
                    stored_text(parts.strings[template_index])->Ok_0,
                    replacement,
                ) {
                    Err(
                        Failure::InvalidWrite {
                            reason: "new text must preserve every template character's UTF-8 and UTF-16 encoded width"@,
                        },
                    )
                } else {
                    match identifiers_agree(parts.attributes, additional, 0) {
                        Err(failure) => Err(failure),
                        Ok(()) => Ok(AdditionParts { parts, additional }),
                    }
                },
            }
        },
    }
}

/// What an addition works on: the pieces of the row, and the additional records.
pub struct AdditionPieces {
    pub pieces: TextPieces,
    pub additional: Vec<Vec<u8>>,
}

impl View for AdditionPieces {
    type V = AdditionParts;

    open spec fn view(&self) -> AdditionParts {
        AdditionParts { parts: self.pieces@, additional: error::views(self.additional@) }
    }
}

/// Checks that an object can be added to a text layer with one of its objects as the
/// template.
#[verifier::spinoff_prover]
pub fn check_template(
    row: &TextRow,
    layer_id: i64,
    template_index: usize,
    replacement: &str,
    limits: Limits,
) -> (checked: Result<AdditionPieces, Error>)
    ensures
        error::outcome(checked) == template_parts(
            layer_id,
            row@,
            template_index as int,
            replacement@,
            limits,
        ),
{
    let pieces = paired(row, layer_id, limits)?;
    let ghost parts = pieces@;
    let count: usize = pieces.strings.len();
    let additional = split_optional(
        &row.additional,
        "TextLayerAddAttributesV01",
        limits.max_text_objects(),
    )?;
    if additional.len() != count {
        return Err(uneven_additions(layer_id, count as u64, additional.len() as u64));
    }
    let new_count: usize = match count.checked_add(1) {
        Some(new_count) => new_count,
        None => return Err(Error::OffsetOverflow),
    };
    if new_count as u64 > limits.max_text_objects() {
        return Err(
            Error::limit(
                "text objects per layer after addition",
                new_count as u64,
                limits.max_text_objects(),
            ),
        );
    }
    if template_index >= count {
        return Err(
            no_object(
                layer_id,
                count as u64,
                " objects, so template index ",
                template_index as u64,
            ),
        );
    }
    let texts = decode_all(&pieces.strings)?;
    assert(error::views(texts@).len() == parts.strings.len());
    assert(error::views(texts@)[template_index as int] == texts@[template_index as int]@);
    if !same_character_encoding_widths(texts[template_index].as_str(), replacement) {
        return Err(
            invalid_write(
                Message::new(
                    "new text must preserve every template character's UTF-8 and UTF-16 encoded width",
                ),
            ),
        );
    }
    assert(parts.attributes.len() == parts.strings.len());
    check_identifiers(&pieces.attributes, &additional)?;
    Ok(AdditionPieces { pieces, additional })
}

/// The attribute records of one row of text layers, checked against the limits.
pub open spec fn attribute_records_of(row: Seq<SqlModel>, limits: Limits) -> Result<
    Seq<Seq<u8>>,
    Failure,
> {
    let limit = limits.max_text_bytes;
    match sql::bytes_at(row, 0) {
        Err(failure) => Err(failure),
        Ok(first) => if first.len() > limit {
            Err(
                Failure::LimitExceeded {
                    resource: "text attribute bytes while allocating an object identifier"@,
                    value: first.len() as u64,
                    limit,
                },
            )
        } else {
            match sql::optional_bytes_at(row, 1) {
                Err(failure) => Err(failure),
                Ok(array) => if text_arrays::stored_array(array).len() > limit {
                    Err(
                        Failure::LimitExceeded {
                            resource: "text attribute array while allocating an object identifier"@,
                            value: text_arrays::stored_array(array).len() as u64,
                            limit,
                        },
                    )
                } else {
                    match optional_items(array, "TextLayerAttributesArray"@, extra_limit(limits)) {
                        Err(failure) => Err(failure),
                        Ok(items) => if items.len() + 1 > limits.max_text_objects {
                            Err(
                                too_many_objects(
                                    "text objects while allocating an object identifier"@,
                                    items.len() + 1int,
                                    limits.max_text_objects,
                                ),
                            )
                        } else {
                            Ok(led_by(first, items))
                        },
                    }
                },
            }
        },
    }
}

fn read_attribute_records(row: &SqlRow, limits: Limits) -> (records: Result<Vec<Vec<u8>>, Error>)
    ensures
        error::listed(records) == attribute_records_of(row@, limits),
{
    let limit: u64 = limits.max_text_bytes();
    let first = row.bytes(0)?;
    let length: u64 = first.len() as u64;
    if length > limit {
        return Err(
            Error::limit(
                "text attribute bytes while allocating an object identifier",
                length,
                limit,
            ),
        );
    }
    let array = row.optional_bytes(1)?;
    let length: u64 = match &array {
        Some(array) => array.len() as u64,
        None => 0,
    };
    if length > limit {
        return Err(
            Error::limit(
                "text attribute array while allocating an object identifier",
                length,
                limit,
            ),
        );
    }
    let items = split_optional(&array, "TextLayerAttributesArray", extra_bound(limits))?;
    let count: u64 = items.len() as u64;
    proof {
        object_count_bound(
            error::optional_bytes(array),
            "TextLayerAttributesArray"@,
            extra_limit(limits),
        );
    }
    if count >= limits.max_text_objects() {
        return Err(
            Error::limit(
                "text objects while allocating an object identifier",
                count + 1,
                limits.max_text_objects(),
            ),
        );
    }
    Ok(lead(first, items))
}

/// The identifiers in use with those of the records from `at` on, in increasing order.
pub open spec fn identifiers_with(records: Seq<Seq<u8>>, at: int, used: Seq<i64>) -> Result<
    Seq<i64>,
    Failure,
>
    decreases records.len() - at,
{
    if at >= records.len() {
        Ok(used)
    } else {
        match text_arrays::identifier_of(records[at]) {
            Err(failure) => Err(failure),
            Ok(found) => if used.contains(found.0 as i64) {
                Err(
                    Failure::InvalidWrite {
                        reason: "text object identifier "@ + message::decimal(found.0 as nat)
                            + " is already used more than once"@,
                    },
                )
            } else {
                identifiers_with(records, at + 1, links::placed(used, found.0 as i64))
            },
        }
    }
}

/// The identifiers in use with those of the rows from `at` on, in increasing order.
pub open spec fn identifiers_from(
    reply: sql::ReplyModel,
    limits: Limits,
    at: int,
    used: Seq<i64>,
) -> Result<Seq<i64>, Failure>
    decreases reply.rows.len() - at,
{
    if at >= reply.rows.len() {
        if reply.failed {
            Err(Failure::Sqlite)
        } else {
            Ok(used)
        }
    } else if at + 1 > limits.max_layers {
        Err(
            too_many_objects(
                "text layers while allocating an object identifier"@,
                at + 1,
                limits.max_layers,
            ),
        )
    } else {
        match attribute_records_of(reply.rows[at], limits) {
            Err(failure) => Err(failure),
            Ok(records) => match identifiers_with(records, 0, used) {
                Err(failure) => Err(failure),
                Ok(more) => identifiers_from(reply, limits, at + 1, more),
            },
        }
    }
}

/// Whether numbers are in increasing order and are identifiers.
pub open spec fn identifier_list(list: Seq<i64>) -> bool {
    links::increasing(list) && forall|i: int|
        0 <= i < list.len() ==> 0 <= #[trigger] list[i] <= u32::MAX
}

/// The first number from `candidate` on that the list from `at` on does not hold.
pub open spec fn gap_from(list: Seq<i64>, at: int, candidate: int) -> Option<u32>
    decreases list.len() - at,
{
    if at >= list.len() || list[at] > candidate {
        Some(candidate as u32)
    } else if list[at] == candidate {
        if candidate >= u32::MAX {
            None
        } else {
            gap_from(list, at + 1, candidate + 1)
        }
    } else {
        gap_from(list, at + 1, candidate)
    }
}

/// An identifier that is not in use: the one after the largest, else the first gap.
pub open spec fn fresh_identifier(list: Seq<i64>) -> Option<u32> {
    if list.len() > 0 && list.last() < u32::MAX {
        Some((list.last() + 1) as u32)
    } else {
        gap_from(list, 0, 1)
    }
}

proof fn gap_is_free(list: Seq<i64>, at: int, candidate: int)
    requires
        identifier_list(list),
        0 <= at <= list.len(),
        0 < candidate <= u32::MAX,
        forall|i: int| 0 <= i < at ==> list[i] < candidate,
    ensures
        gap_from(list, at, candidate) matches Some(free) ==> free >= candidate && !list.contains(
            free as i64,
        ),
    decreases list.len() - at,
{
    if at >= list.len() || list[at] > candidate {
        assert forall|i: int| 0 <= i < list.len() implies list[i] != candidate by {
            if i > at {
                assert(list[at] < list[i]);
            }
        }
    } else if list[at] == candidate {
        if candidate < u32::MAX {
            gap_is_free(list, at + 1, candidate + 1);
        }
    } else {
        gap_is_free(list, at + 1, candidate);
    }
}

/// A fresh identifier is not in use, and is not zero.
pub proof fn fresh_identifier_is_free(list: Seq<i64>)
    requires
        identifier_list(list),
    ensures
        fresh_identifier(list) matches Some(free) ==> free > 0 && !list.contains(free as i64),
{
    if list.len() > 0 && list.last() < u32::MAX {
        assert forall|i: int| 0 <= i < list.len() implies list[i] != list.last() + 1 by {
            if i < list.len() - 1 {
                assert(list[i] < list[list.len() - 1]);
            }
        }
        assert(list[list.len() - 1] >= 0);
    } else {
        gap_is_free(list, 0, 1);
    }
}

fn find_gap(list: &Vec<i64>) -> (free: Option<u32>)
    requires
        identifier_list(list@),
    ensures
        free == gap_from(list@, 0, 1),
{
    let mut candidate: u32 = 1;
    let mut at: usize = 0;
    while at < list.len()
        invariant
            at <= list@.len(),
            gap_from(list@, 0, 1) == gap_from(list@, at as int, candidate as int),
        decreases list@.len() - at,
    {
        if list[at] > candidate as i64 {
            return Some(candidate);
        }
        if list[at] == candidate as i64 {
            if candidate == u32::MAX {
                return None;
            }
            candidate = candidate + 1;
        }
        at = at + 1;
    }
    Some(candidate)
}

/// Allocates an identifier that is not in use.
pub fn allocate_identifier(list: &Vec<i64>) -> (free: Result<u32, Error>)
    requires
        identifier_list(list@),
    ensures
        error::plain(free) == match fresh_identifier(list@) {
            Some(free) => Ok::<u32, Failure>(free),
            None => Err(
                Failure::InvalidWrite { reason: "all text object identifiers are occupied"@ },
            ),
        },
{
    let length: usize = list.len();
    if length > 0 && list[length - 1] < u32::MAX as i64 {
        assert(list@[length - 1] >= 0);
        return Ok((list[length - 1] + 1) as u32);
    }
    match find_gap(list) {
        Some(free) => Ok(free),
        None => Err(invalid_write(Message::new("all text object identifiers are occupied"))),
    }
}

proof fn identifiers_stay_listed(used: Seq<i64>, value: u32)
    requires
        identifier_list(used),
    ensures
        identifier_list(links::placed(used, value as i64)),
{
    links::placed_in_order(used, value as i64);
    let list = links::placed(used, value as i64);
    assert forall|i: int| 0 <= i < list.len() implies 0 <= #[trigger] list[i] <= u32::MAX by {
        assert(list.contains(list[i]));
        if list[i] != value {
            let k = choose|k: int| 0 <= k < used.len() && used[k] == list[i];
            assert(0 <= used[k] <= u32::MAX);
        }
    }
}

/// Reads the identifiers in use, in increasing order, none twice.
#[verifier::spinoff_prover]
pub fn identifiers_from_reply(reply: &Reply, limits: Limits) -> (list: Result<Vec<i64>, Error>)
    ensures
        error::outcome(list) == identifiers_from(reply@, limits, 0, Seq::empty()),
        list matches Ok(list) ==> identifier_list(list@),
{
    let mut list: Vec<i64> = Vec::new();
    let mut seen: BTreeSet<i64> = BTreeSet::new();
    let mut at: usize = 0;
    while at < reply.rows.len()
        invariant
            at <= reply.rows@.len(),
            identifier_list(list@),
            forall|id: i64| #[trigger] seen@.contains(id) <==> list@.contains(id),
            identifiers_from(reply@, limits, 0, Seq::empty()) == identifiers_from(
                reply@,
                limits,
                at as int,
                list@,
            ),
        decreases reply.rows@.len() - at,
    {
        assert(reply@.rows[at as int] == reply.rows@[at as int]@);
        if at as u64 >= limits.max_layers() {
            return Err(
                Error::limit(
                    "text layers while allocating an object identifier",
                    at as u64 + 1,
                    limits.max_layers(),
                ),
            );
        }
        let records = read_attribute_records(&reply.rows[at], limits)?;
        let ghost models = error::views(records@);
        let ghost before = list@;
        let mut next: usize = 0;
        while next < records.len()
            invariant
                next <= records@.len(),
                at < reply.rows@.len(),
                at < limits.max_layers,
                models == error::views(records@),
                identifier_list(list@),
                forall|id: i64| #[trigger] seen@.contains(id) <==> list@.contains(id),
                attribute_records_of(reply@.rows[at as int], limits) == Ok::<
                    Seq<Seq<u8>>,
                    Failure,
                >(models),
                identifiers_with(models, 0, before) == identifiers_with(
                    models,
                    next as int,
                    list@,
                ),
                identifiers_from(reply@, limits, 0, Seq::empty()) == identifiers_from(
                    reply@,
                    limits,
                    at as int,
                    before,
                ),
            decreases records@.len() - next,
        {
            assert(models[next as int] == records@[next as int]@);
            let (identifier, _) = text_attribute_identifier(records[next].as_slice())?;
            let id: i64 = identifier as i64;
            if seen.contains(&id) {
                return Err(
                    invalid_write(
                        Message::new("text object identifier ").number(identifier as u64).text(
                            " is already used more than once",
                        ),
                    ),
                );
            }
            proof {
                identifiers_stay_listed(list@, identifier);
                links::placed_in_order(list@, id);
            }
            seen.insert(id);
            place(&mut list, id);
            next = next + 1;
        }
        at = at + 1;
    }
    match reply.failure() {
        Some(error) => Err(error),
        None => Ok(list),
    }
}

/// What is asked for the identifiers in use, in order.
pub open spec fn identifier_items(schema: Seq<database::TableModel>) -> Seq<Seq<char>> {
    seq![
        "TextLayerAttributes"@,
        database::column_or_null(schema, "Layer"@, "TextLayerAttributesArray"@),
    ]
}

/// The question that lists the attribute records of all text layers.
pub open spec fn identifiers_question(schema: Seq<database::TableModel>) -> Seq<char> {
    columns::asked(identifier_items(schema), " FROM Layer WHERE TextLayerType IS NOT NULL"@)
}

/// The identifier to use next, given the rows that hold the ones in use.
pub open spec fn next_identifier_of(
    reply: sql::ReplyModel,
    limits: Limits,
) -> Result<u32, Failure> {
    match identifiers_from(reply, limits, 0, Seq::empty()) {
        Err(failure) => Err(failure),
        Ok(list) => match fresh_identifier(list) {
            Some(free) => Ok(free),
            None => Err(
                Failure::InvalidWrite { reason: "all text object identifiers are occupied"@ },
            ),
        },
    }
}

/// Whether allocating an identifier can have this outcome.
pub open spec fn identifier_allocated(
    connection: Connection,
    schema: Seq<database::TableModel>,
    limits: Limits,
    outcome: Result<u32, Failure>,
) -> bool {
    if database::first_missing(
        schema,
        "Layer"@,
        seq!["TextLayerType"@, "TextLayerAttributes"@],
        0,
    ) is Some {
        outcome == Err::<u32, Failure>(
            Failure::InvalidWrite {
                reason: column_complaint(
                    database::first_missing(
                        schema,
                        "Layer"@,
                        seq!["TextLayerType"@, "TextLayerAttributes"@],
                        0,
                    )->Some_0,
                    "TextLayerType"@,
                    "allocate a text object identifier"@,
                ),
            },
        )
    } else {
        exists|reply: sql::ReplyModel|
            #[trigger] sql::may_answer_within(
                connection,
                identifiers_question(schema),
                Seq::empty(),
                limits.max_layers,
                reply,
            )
                && outcome == next_identifier_of(reply, limits)
    }
}

fn next_text_object_identifier(connection: &Connection, schema: &DatabaseSchema, limits: Limits) -> (
identifier: Result<u32, Error>)
    ensures
        identifier_allocated(*connection, schema@, limits, error::plain(identifier)),
{
    let columns: [&str; 2] = ["TextLayerType", "TextLayerAttributes"];
    assert(database::names(columns@) =~= seq!["TextLayerType"@, "TextLayerAttributes"@]);
    if let Some(error) = schema.first_missing_column("Layer", &columns) {
        return Err(column_required(error, "TextLayerType", "allocate a text object identifier"));
    }
    let asked: [&str; 2] = [
        "TextLayerAttributes",
        schema.column_or_null("Layer", "TextLayerAttributesArray"),
    ];
    assert(database::names(asked@) =~= identifier_items(schema@));
    let question = columns::ask(&asked, " FROM Layer WHERE TextLayerType IS NOT NULL");
    let reply = query_all_within(connection, question.as_str(), limits.max_layers());
    assert(sql::may_answer_within(
        *connection,
        identifiers_question(schema@),
        Seq::empty(),
        limits.max_layers,
        reply@,
    ));
    let list = identifiers_from_reply(&reply, limits)?;
    allocate_identifier(&list)
}

/// The three arrays that an addition writes.
pub struct TextAddition {
    pub strings: Vec<u8>,
    pub attributes: Vec<u8>,
    pub additional: Vec<u8>,
}

/// The model of a [`TextAddition`].
#[verifier::ext_equal]
pub struct AdditionModel {
    pub strings: Seq<u8>,
    pub attributes: Seq<u8>,
    pub additional: Seq<u8>,
}

impl View for TextAddition {
    type V = AdditionModel;

    open spec fn view(&self) -> AdditionModel {
        AdditionModel {
            strings: self.strings@,
            attributes: self.attributes@,
            additional: self.additional@,
        }
    }
}

/// A record with a new identifier.
pub open spec fn cloned_record(record: Seq<u8>, identifier: u32) -> Seq<u8> {
    text_arrays::with_identifier(
        record,
        text_arrays::identifier_of(record)->Ok_0.1,
        identifier,
    )
}

/// The arrays of a row with one more object, made from a template.
pub open spec fn addition_of(
    row: TextRowModel,
    parts: AdditionParts,
    template_index: int,
    replacement: Seq<char>,
    identifier: u32,
    limits: Limits,
) -> Result<AdditionModel, Failure> {
    let text = utf8::encode_utf8(replacement);
    let attributes = cloned_record(parts.parts.attributes[template_index], identifier);
    let additional = cloned_record(parts.additional[template_index], identifier);
    let total = parts.parts.total + 12 + text.len() + attributes.len() + additional.len();
    if total > u64::MAX {
        Err(Failure::OffsetOverflow)
    } else if total > limits.max_text_bytes {
        Err(
            Failure::LimitExceeded {
                resource: "text layer bytes after object addition"@,
                value: total as u64,
                limit: limits.max_text_bytes,
            },
        )
    } else if text.len() > u32::MAX || attributes.len() > u32::MAX || additional.len() > u32::MAX {
        Err(Failure::OffsetOverflow)
    } else {
        Ok(
            AdditionModel {
                strings: text_arrays::stored_array(row.string_array) + text_arrays::item_bytes(text),
                attributes: text_arrays::stored_array(row.attributes_array)
                    + text_arrays::item_bytes(attributes),
                additional: text_arrays::stored_array(row.additional) + text_arrays::item_bytes(
                    additional,
                ),
            },
        )
    }
}

proof fn agreed_identifiers(
    attributes: Seq<Seq<u8>>,
    additional: Seq<Seq<u8>>,
    at: int,
    index: int,
)
    requires
        0 <= at <= index < attributes.len(),
        identifiers_agree(attributes, additional, at) is Ok,
    ensures
        text_arrays::identifier_of(attributes[index]) is Ok,
        text_arrays::identifier_of(additional[index]) is Ok,
        text_arrays::identifier_of(attributes[index])->Ok_0.0 == text_arrays::identifier_of(
            additional[index],
        )->Ok_0.0,
    decreases attributes.len() - at,
{
    if at < index {
        agreed_identifiers(attributes, additional, at + 1, index);
    }
}

proof fn missing_array_is_empty(array: Option<Seq<u8>>, field: Seq<char>, max_items: u64)
    ensures
        optional_items(array, field, max_items) == text_arrays::items_of(
            text_arrays::stored_array(array),
            field,
            max_items,
        ),
{
}

/// An object that is added comes after the ones before: the three arrays read back as they
/// were with one item more, which are the new text, and the records of the template with
/// the new identifier in both.
pub proof fn added_object_comes_last(
    layer_id: i64,
    row: TextRowModel,
    template_index: int,
    replacement: Seq<char>,
    identifier: u32,
    limits: Limits,
)
    requires
        0 <= template_index,
        template_parts(layer_id, row, template_index, replacement, limits) is Ok,
        addition_of(
            row,
            template_parts(layer_id, row, template_index, replacement, limits)->Ok_0,
            template_index,
            replacement,
            identifier,
            limits,
        ) is Ok,
    ensures
        ({
            let found = template_parts(layer_id, row, template_index, replacement, limits)->Ok_0;
            let added = addition_of(
                row,
                found,
                template_index,
                replacement,
                identifier,
                limits,
            )->Ok_0;
            let attributes = cloned_record(found.parts.attributes[template_index], identifier);
            let additional = cloned_record(found.additional[template_index], identifier);
            &&& text_arrays::items_of(
                added.strings,
                "TextLayerStringArray"@,
                extra_limit(limits),
            ) == Ok::<
                Seq<Seq<u8>>,
                Failure,
            >(found.parts.strings.skip(1).push(utf8::encode_utf8(replacement)))
            &&& text_arrays::items_of(
                added.attributes,
                "TextLayerAttributesArray"@,
                extra_limit(limits),
            ) == Ok::<
                Seq<Seq<u8>>,
                Failure,
            >(found.parts.attributes.skip(1).push(attributes))
            &&& text_arrays::items_of(
                added.additional,
                "TextLayerAddAttributesV01"@,
                limits.max_text_objects,
            ) == Ok::<
                Seq<Seq<u8>>,
                Failure,
            >(found.additional.push(additional))
            &&& text_arrays::identifier_of(attributes) matches Ok(own) && own.0 == identifier
            &&& text_arrays::identifier_of(additional) matches Ok(other) && other.0 == identifier
        }),
{
    let found = template_parts(layer_id, row, template_index, replacement, limits)->Ok_0;
    let extra = extra_limit(limits);
    missing_array_is_empty(row.string_array, "TextLayerStringArray"@, extra);
    missing_array_is_empty(row.attributes_array, "TextLayerAttributesArray"@, extra);
    missing_array_is_empty(
        row.additional,
        "TextLayerAddAttributesV01"@,
        limits.max_text_objects,
    );
    let strings = optional_items(row.string_array, "TextLayerStringArray"@, extra)->Ok_0;
    let attributes = optional_items(row.attributes_array, "TextLayerAttributesArray"@, extra)->Ok_0;
    assert(found.parts.strings.skip(1) =~= strings);
    assert(found.parts.attributes.skip(1) =~= attributes);
    agreed_identifiers(found.parts.attributes, found.additional, 0, template_index);
    let own = cloned_record(found.parts.attributes[template_index], identifier);
    let other = cloned_record(found.additional[template_index], identifier);
    text_arrays::replaced_identifier_reads_back(
        found.parts.attributes[template_index],
        identifier,
    );
    text_arrays::replaced_identifier_reads_back(found.additional[template_index], identifier);
    text_arrays::appended_item_reads_back(
        text_arrays::stored_array(row.string_array),
        utf8::encode_utf8(replacement),
        "TextLayerStringArray"@,
        extra,
        extra,
    );
    text_arrays::appended_item_reads_back(
        text_arrays::stored_array(row.attributes_array),
        own,
        "TextLayerAttributesArray"@,
        extra,
        extra,
    );
    text_arrays::appended_item_reads_back(
        text_arrays::stored_array(row.additional),
        other,
        "TextLayerAddAttributesV01"@,
        limits.max_text_objects,
        limits.max_text_objects,
    );
}

fn optional_reference(array: &Option<Vec<u8>>) -> (reference: Option<&Vec<u8>>)
    ensures
        match reference {
            Some(data) => error::optional_bytes(*array) == Some(data@),
            None => *array is None,
        },
{
    match array {
        Some(data) => Some(data),
        None => None,
    }
}

/// Plans the arrays of a row with one more object.
#[verifier::spinoff_prover]
pub fn plan_addition(
    row: &TextRow,
    checked: &AdditionPieces,
    template_index: usize,
    replacement: &str,
    identifier: u32,
    limits: Limits,
) -> (plan: Result<TextAddition, Error>)
    requires
        template_index < checked@.parts.attributes.len(),
        checked@.additional.len() == checked@.parts.attributes.len(),
        identifiers_agree(checked@.parts.attributes, checked@.additional, 0) is Ok,
    ensures
        error::outcome(plan) == addition_of(
            row@,
            checked@,
            template_index as int,
            replacement@,
            identifier,
            limits,
        ),
{
    proof {
        agreed_identifiers(
            checked@.parts.attributes,
            checked@.additional,
            0,
            template_index as int,
        );
        let own = checked@.parts.attributes[template_index as int];
        let other = checked@.additional[template_index as int];
        assert(own == checked.pieces.attributes@[template_index as int]@);
        assert(other == checked.additional@[template_index as int]@);
    }
    let mut attributes = copy_all(&checked.pieces.attributes[template_index]);
    replace_text_attribute_identifier(&mut attributes, identifier)?;
    let mut additional = copy_all(&checked.additional[template_index]);
    replace_text_attribute_identifier(&mut additional, identifier)?;
    let text: &[u8] = replacement.as_bytes();
    assert(text.len() == text@.len());
    let total: u64 = match (text.len() as u64).checked_add(12) {
        Some(total) => total,
        None => return Err(Error::OffsetOverflow),
    };
    let total: u64 = match total.checked_add(attributes.len() as u64) {
        Some(total) => total,
        None => return Err(Error::OffsetOverflow),
    };
    let total: u64 = match total.checked_add(additional.len() as u64) {
        Some(total) => total,
        None => return Err(Error::OffsetOverflow),
    };
    let total: u64 = match total.checked_add(checked.pieces.total) {
        Some(total) => total,
        None => return Err(Error::OffsetOverflow),
    };
    if total > limits.max_text_bytes() {
        return Err(
            Error::limit(
                "text layer bytes after object addition",
                total,
                limits.max_text_bytes(),
            ),
        );
    }
    let strings = append_array_item(optional_reference(&row.string_array), text)?;
    let attributes = append_array_item(
        optional_reference(&row.attributes_array),
        attributes.as_slice(),
    )?;
    let additional = append_array_item(
        optional_reference(&row.additional),
        additional.as_slice(),
    )?;
    Ok(TextAddition { strings, attributes, additional })
}

/// The columns that adding and removing objects needs.
pub open spec fn edit_columns() -> Seq<Seq<char>> {
    seq!["MainId"@, "TextLayerType"@, "TextLayerString"@, "TextLayerAttributes"@, "TextLayerStringArray"@, "TextLayerAttributesArray"@, "TextLayerAddAttributesV01"@]
}

/// What is asked for an edit of a text layer, in order.
pub open spec fn edit_items() -> Seq<Seq<char>> {
    seq![
        "TextLayerType"@,
        "TextLayerString"@,
        "TextLayerAttributes"@,
        "TextLayerStringArray"@,
        "TextLayerAttributesArray"@,
        "TextLayerAddAttributesV01"@,
    ]
}

/// The question that adding and removing objects asks.
pub open spec fn edit_question() -> Seq<char> {
    columns::asked(edit_items(), " FROM Layer WHERE MainId = ?1 LIMIT 1"@)
}

/// The statement that writes the arrays of an addition.
pub open spec fn addition_statement() -> Seq<char> {
    "UPDATE Layer SET TextLayerStringArray = ?1, TextLayerAttributesArray = ?2, TextLayerAddAttributesV01 = ?3 WHERE MainId = ?4"@
}

/// Whether carrying out an addition can have this outcome.
pub open spec fn addition_applied(
    connection: Connection,
    layer_id: i64,
    plan: AdditionModel,
    summary: TextObjectWriteSummary,
    outcome: Result<TextObjectWriteSummary, Failure>,
) -> bool {
    one_row_changed(
        connection,
        layer_id,
        addition_statement(),
        seq![
            sql::ParameterModel::Blob(plan.strings),
            sql::ParameterModel::Blob(plan.attributes),
            sql::ParameterModel::Blob(plan.additional),
            sql::ParameterModel::Integer(layer_id),
        ],
        summary,
        outcome,
    )
}

/// Whether adding an object to a row can have this outcome.
pub open spec fn template_used(
    connection: Connection,
    schema: Seq<database::TableModel>,
    layer_id: i64,
    row: TextRowModel,
    parts: AdditionParts,
    template_index: int,
    replacement: Seq<char>,
    limits: Limits,
    outcome: Result<TextObjectWriteSummary, Failure>,
) -> bool {
    exists|identifier: Result<u32, Failure>|
        #[trigger] identifier_allocated(
            connection,
            schema,
            limits,
            identifier,
        ) && match identifier {
            Err(failure) => outcome == Err::<TextObjectWriteSummary, Failure>(failure),
            Ok(identifier) => match addition_of(
                row,
                parts,
                template_index,
                replacement,
                identifier,
                limits,
            ) {
                Err(failure) => outcome == Err::<TextObjectWriteSummary, Failure>(failure),
                Ok(plan) => addition_applied(
                    connection,
                    layer_id,
                    plan,
                    TextObjectWriteSummary {
                        object_index: parts.parts.strings.len() as usize,
                        identifier,
                    },
                    outcome,
                ),
            },
        }
}

/// Whether adding an object can have this outcome.
pub open spec fn text_added(
    connection: Connection,
    schema: Seq<database::TableModel>,
    layer_id: i64,
    template_index: int,
    replacement: Seq<char>,
    limits: Limits,
    outcome: Result<TextObjectWriteSummary, Failure>,
) -> bool {
    exists|row: Result<TextRowModel, Failure>|
        #[trigger] text_row_read(
            connection,
            schema,
            layer_id,
            edit_columns(),
            edit_question(),
            Failure::Sqlite,
            "add a text object"@,
            row,
        ) && match row {
            Err(failure) => outcome == Err::<TextObjectWriteSummary, Failure>(failure),
            Ok(row) => match template_parts(layer_id, row, template_index, replacement, limits) {
                Err(failure) => outcome == Err::<TextObjectWriteSummary, Failure>(failure),
                Ok(parts) => template_used(
                    connection,
                    schema,
                    layer_id,
                    row,
                    parts,
                    template_index,
                    replacement,
                    limits,
                    outcome,
                ),
            },
        }
}

fn apply_addition(
    connection: &Connection,
    layer_id: i64,
    plan: TextAddition,
    summary: TextObjectWriteSummary,
) -> (result: Result<TextObjectWriteSummary, Error>)
    ensures
        addition_applied(*connection, layer_id, plan@, summary, error::plain(result)),
{
    let mut parameters: Vec<SqlParameter> = Vec::new();
    parameters.push(SqlParameter::Blob(plan.strings));
    parameters.push(SqlParameter::Blob(plan.attributes));
    parameters.push(SqlParameter::Blob(plan.additional));
    parameters.push(SqlParameter::Integer(layer_id));
    assert(error::views(parameters@) =~= seq![
        sql::ParameterModel::Blob(plan@.strings),
        sql::ParameterModel::Blob(plan@.attributes),
        sql::ParameterModel::Blob(plan@.additional),
        sql::ParameterModel::Integer(layer_id),
    ]);
    match change_one_row(
        connection,
        "UPDATE Layer SET TextLayerStringArray = ?1, TextLayerAttributesArray = ?2, TextLayerAddAttributesV01 = ?3 WHERE MainId = ?4",
        &parameters,
        layer_id,
    ) {
        Ok(()) => Ok(summary),
        Err(error) => Err(error),
    }
}

fn read_edit_row(
    connection: &Connection,
    schema: &DatabaseSchema,
    layer_id: i64,
    purpose: &str,
) -> (row: Result<TextRow, Error>)
    ensures
        text_row_read(
            *connection,
            schema@,
            layer_id,
            edit_columns(),
            edit_question(),
            Failure::Sqlite,
            purpose@,
            error::outcome(row),
        ),
{
    let columns: [&str; 7] = ["MainId", "TextLayerType", "TextLayerString", "TextLayerAttributes", "TextLayerStringArray", "TextLayerAttributesArray", "TextLayerAddAttributesV01"];
    assert(database::names(columns@) =~= edit_columns());
    let asked: [&str; 6] = ["TextLayerType", "TextLayerString", "TextLayerAttributes", "TextLayerStringArray", "TextLayerAttributesArray", "TextLayerAddAttributesV01"];
    assert(database::names(asked@) =~= edit_items());
    read_text_row(
        connection,
        schema,
        layer_id,
        &columns,
        columns::ask(&asked, " FROM Layer WHERE MainId = ?1 LIMIT 1").as_str(),
        false,
        purpose,
    )
}

/// Appends a text object by cloning one existing object's opaque attributes.
#[verifier::spinoff_prover]
pub fn add_text_object_from_template(
    connection: &Connection,
    schema: &DatabaseSchema,
    layer_id: i64,
    template_index: usize,
    replacement: &str,
    limits: Limits,
) -> (summary: Result<TextObjectWriteSummary, Error>)
    ensures
        text_added(
            *connection,
            schema@,
            layer_id,
            template_index as int,
            replacement@,
            limits,
            error::plain(summary),
        ),
{
    let row = read_edit_row(connection, schema, layer_id, "add a text object");
    assert(text_row_read(
        *connection,
        schema@,
        layer_id,
        edit_columns(),
        edit_question(),
        Failure::Sqlite,
        "add a text object"@,
        error::outcome(row),
    ));
    let row = row?;
    let checked = check_template(&row, layer_id, template_index, replacement, limits)?;
    let ghost parts = checked@;
    let identifier = next_text_object_identifier(connection, schema, limits);
    assert(identifier_allocated(*connection, schema@, limits, error::plain(identifier)));
    let result: Result<TextObjectWriteSummary, Error> = match identifier {
        Err(error) => Err(error),
        Ok(identifier) => {
            assert(parts.parts.attributes.len() == parts.parts.strings.len());
            match plan_addition(&row, &checked, template_index, replacement, identifier, limits) {
                Err(error) => Err(error),
                Ok(plan) => {
                    let summary = TextObjectWriteSummary {
                        object_index: checked.pieces.strings.len(),
                        identifier,
                    };
                    apply_addition(connection, layer_id, plan, summary)
                },
            }
        },
    };
    assert(template_used(
        *connection,
        schema@,
        layer_id,
        row@,
        parts,
        template_index as int,
        replacement@,
        limits,
        error::plain(result),
    ));
    result
}

/// Whether the objects from `at` on can be read, and hold the identifiers of their
/// additional records.
pub open spec fn objects_agree(
    strings: Seq<Seq<u8>>,
    attributes: Seq<Seq<u8>>,
    additional: Seq<Seq<u8>>,
    at: int,
) -> Result<(), Failure>
    decreases strings.len() - at,
{
    if at >= strings.len() {
        Ok(())
    } else {
        match stored_text(strings[at]) {
            Err(failure) => Err(failure),
            Ok(_) => match text_arrays::identifier_of(attributes[at]) {
                Err(failure) => Err(failure),
                Ok(own) => match text_arrays::identifier_of(additional[at]) {
                    Err(failure) => Err(failure),
                    Ok(other) => if own.0 != other.0 {
                        Err(
                            Failure::InvalidWrite {
                                reason: identifier_complaint(at, own.0, other.0),
                            },
                        )
                    } else {
                        objects_agree(strings, attributes, additional, at + 1)
                    },
                },
            },
        }
    }
}

fn check_objects(
    strings: &Vec<Vec<u8>>,
    attributes: &Vec<Vec<u8>>,
    additional: &Vec<Vec<u8>>,
) -> (result: Result<(), Error>)
    requires
        strings@.len() == attributes@.len(),
        strings@.len() == additional@.len(),
    ensures
        error::plain(result) == objects_agree(
            error::views(strings@),
            error::views(attributes@),
            error::views(additional@),
            0,
        ),
{
    let ghost texts = error::views(strings@);
    let ghost own_models = error::views(attributes@);
    let ghost other_models = error::views(additional@);
    let mut at: usize = 0;
    while at < strings.len()
        invariant
            at <= strings@.len(),
            strings@.len() == attributes@.len(),
            strings@.len() == additional@.len(),
            texts == error::views(strings@),
            own_models == error::views(attributes@),
            other_models == error::views(additional@),
            objects_agree(texts, own_models, other_models, 0) == objects_agree(
                texts,
                own_models,
                other_models,
                at as int,
            ),
        decreases strings@.len() - at,
    {
        assert(texts[at as int] == strings@[at as int]@);
        assert(own_models[at as int] == attributes@[at as int]@);
        assert(other_models[at as int] == additional@[at as int]@);
        let _ = decode_text(&strings[at])?;
        let (own, _) = text_attribute_identifier(attributes[at].as_slice())?;
        let (other, _) = text_attribute_identifier(additional[at].as_slice())?;
        if own != other {
            return Err(mismatched_identifier(at, own, other));
        }
        at = at + 1;
    }
    Ok(())
}

/// What is said of a removal from a layer with so many objects, if it is refused.
pub open spec fn removal_complaint(layer_id: i64, count: int, index: int) -> Seq<char> {
    if count <= 1 {
        layer_complaint(layer_id, " must retain at least one text object"@)
    } else {
        index_complaint(layer_id, count as nat, " objects, so object index "@, index as nat)
    }
}

/// The objects of a row that one can be removed from.
pub open spec fn removable_parts(
    layer_id: i64,
    row: TextRowModel,
    index: int,
    limits: Limits,
) -> Result<
    AdditionParts,
    Failure,
> {
    match paired_parts(layer_id, row, limits) {
        Err(failure) => Err(failure),
        Ok(parts) => {
            let count = parts.strings.len() as int;
            if count > limits.max_text_objects {
                Err(
                    too_many_objects("text objects per layer"@, count, limits.max_text_objects),
                )
            } else if count <= 1 || index >= count {
                Err(
                    Failure::InvalidWrite { reason: removal_complaint(layer_id, count, index) },
                )
            } else {
                match optional_items(
                    row.additional,
                    "TextLayerAddAttributesV01"@,
                    limits.max_text_objects,
                ) {
                    Err(failure) => Err(failure),
                    Ok(additional) => if additional.len() != count {
                        Err(
                            Failure::InvalidWrite {
                                reason: additions_complaint(
                                    layer_id,
                                    count as nat,
                                    additional.len(),
                                ),
                            },
                        )
                    } else {
                        match objects_agree(parts.strings, parts.attributes, additional, 0) {
                            Err(failure) => Err(failure),
                            Ok(()) => Ok(AdditionParts { parts, additional }),
                        }
                    },
                }
            }
        },
    }
}

/// The bytes of an array that is only there when it has items.
pub open spec fn array_unless_empty(items: Seq<Seq<u8>>) -> Option<Seq<u8>> {
    if items.len() == 0 {
        None
    } else {
        Some(text_arrays::array_bytes(items))
    }
}

/// What a removal writes, and the object that it removes.
#[verifier::ext_equal]
pub struct RemovalModel {
    pub removed: TextObjectModel,
    pub string: Seq<u8>,
    pub attributes: Seq<u8>,
    pub string_array: Option<Seq<u8>>,
    pub attributes_array: Option<Seq<u8>>,
    pub additional: Seq<u8>,
}

/// The removal of one object; where it is the primary one, the next takes its place.
pub open spec fn removal_of(layer_id: i64, row: TextRowModel, index: int, limits: Limits) -> Result<
    RemovalModel,
    Failure,
> {
    match removable_parts(layer_id, row, index, limits) {
        Err(failure) => Err(failure),
        Ok(found) => {
            let strings = found.parts.strings.remove(index);
            let attributes = found.parts.attributes.remove(index);
            let additional = found.additional.remove(index);
            if !text_arrays::items_fit(strings.skip(1)) || !text_arrays::items_fit(
                attributes.skip(1),
            ) || !text_arrays::items_fit(additional) {
                Err(Failure::OffsetOverflow)
            } else {
                Ok(
                    RemovalModel {
                        removed: TextObjectModel {
                            text: stored_text(found.parts.strings[index])->Ok_0,
                            attributes: found.parts.attributes[index],
                        },
                        string: strings[0],
                        attributes: attributes[0],
                        string_array: array_unless_empty(strings.skip(1)),
                        attributes_array: array_unless_empty(attributes.skip(1)),
                        additional: text_arrays::array_bytes(additional),
                    },
                )
            }
        },
    }
}

/// A removal leaves the other objects in order: what it writes reads back as the strings
/// and records before, but for the ones at the index.
pub proof fn removal_keeps_the_other_objects(
    layer_id: i64,
    row: TextRowModel,
    index: int,
    limits: Limits,
)
    requires
        0 <= index,
        removal_of(layer_id, row, index, limits) is Ok,
    ensures
        ({
            let found = removable_parts(layer_id, row, index, limits)->Ok_0;
            let plan = removal_of(layer_id, row, index, limits)->Ok_0;
            let strings = found.parts.strings.remove(index);
            let attributes = found.parts.attributes.remove(index);
            &&& plan.string == strings[0]
            &&& plan.attributes == attributes[0]
            &&& optional_items(
                plan.string_array,
                "TextLayerStringArray"@,
                extra_limit(limits),
            ) == Ok::<
                Seq<Seq<u8>>,
                Failure,
            >(strings.skip(1))
            &&& optional_items(
                plan.attributes_array,
                "TextLayerAttributesArray"@,
                extra_limit(limits),
            ) == Ok::<
                Seq<Seq<u8>>,
                Failure,
            >(attributes.skip(1))
            &&& text_arrays::items_of(
                plan.additional,
                "TextLayerAddAttributesV01"@,
                limits.max_text_objects,
            ) == Ok::<
                Seq<Seq<u8>>,
                Failure,
            >(found.additional.remove(index))
        }),
{
    let found = removable_parts(layer_id, row, index, limits)->Ok_0;
    let strings = found.parts.strings.remove(index);
    let attributes = found.parts.attributes.remove(index);
    assert(attributes.len() == strings.len());
    text_arrays::written_items_read_back(
        strings.skip(1),
        "TextLayerStringArray"@,
        extra_limit(limits),
    );
    text_arrays::written_items_read_back(
        attributes.skip(1),
        "TextLayerAttributesArray"@,
        extra_limit(limits),
    );
    text_arrays::written_items_read_back(
        found.additional.remove(index),
        "TextLayerAddAttributesV01"@,
        limits.max_text_objects,
    );
    if strings.len() == 1 {
        assert(strings.skip(1) =~= Seq::empty());
        assert(attributes.skip(1) =~= Seq::empty());
    }
}

/// What a removal writes, and the object that it removes.
pub struct TextRemoval {
    pub removed: TextObjectData,
    pub string: Vec<u8>,
    pub attributes: Vec<u8>,
    pub string_array: Option<Vec<u8>>,
    pub attributes_array: Option<Vec<u8>>,
    pub additional: Vec<u8>,
}

impl View for TextRemoval {
    type V = RemovalModel;

    open spec fn view(&self) -> RemovalModel {
        RemovalModel {
            removed: self.removed@,
            string: self.string@,
            attributes: self.attributes@,
            string_array: error::optional_bytes(self.string_array),
            attributes_array: error::optional_bytes(self.attributes_array),
            additional: self.additional@,
        }
    }
}

fn encode_unless_empty(items: &Vec<Vec<u8>>) -> (data: Result<Option<Vec<u8>>, Error>)
    ensures
        match data {
            Ok(data) => text_arrays::items_fit(error::views(items@)) && error::optional_bytes(data)
                == array_unless_empty(error::views(items@)),
            Err(error) => !text_arrays::items_fit(error::views(items@)) && error@
                == Failure::OffsetOverflow,
        },
{
    if items.len() == 0 {
        return Ok(None);
    }
    let data = encode_array(items.as_slice())?;
    Ok(Some(data))
}

proof fn decoded_object(
    strings: Seq<Seq<u8>>,
    attributes: Seq<Seq<u8>>,
    additional: Seq<Seq<u8>>,
    at: int,
    index: int,
)
    requires
        0 <= at <= index < strings.len(),
        objects_agree(strings, attributes, additional, at) is Ok,
    ensures
        stored_text(strings[index]) is Ok,
    decreases strings.len() - at,
{
    if at < index {
        decoded_object(strings, attributes, additional, at + 1, index);
    }
}

/// Plans the removal of one object.
#[verifier::spinoff_prover]
#[verifier::rlimit(40)]
pub fn plan_removal(row: &TextRow, layer_id: i64, index: usize, limits: Limits) -> (plan: Result<
    TextRemoval,
    Error,
>)
    ensures
        error::outcome(plan) == removal_of(layer_id, row@, index as int, limits),
{
    let mut pieces = paired(row, layer_id, limits)?;
    let ghost parts = pieces@;
    let count: usize = pieces.strings.len();
    if count as u64 > limits.max_text_objects() {
        return Err(
            Error::limit("text objects per layer", count as u64, limits.max_text_objects()),
        );
    }
    if count <= 1 {
        return Err(layer_message(layer_id, " must retain at least one text object"));
    }
    if index >= count {
        return Err(
            no_object(layer_id, count as u64, " objects, so object index ", index as u64),
        );
    }
    let mut additional = split_optional(
        &row.additional,
        "TextLayerAddAttributesV01",
        limits.max_text_objects(),
    )?;
    if additional.len() != count {
        return Err(uneven_additions(layer_id, count as u64, additional.len() as u64));
    }
    let ghost others = error::views(additional@);
    assert(parts.attributes.len() == parts.strings.len());
    check_objects(&pieces.strings, &pieces.attributes, &additional)?;
    proof {
        decoded_object(parts.strings, parts.attributes, others, 0, index as int);
        assert(parts.strings[index as int] == pieces.strings@[index as int]@);
        assert(parts.attributes[index as int] == pieces.attributes@[index as int]@);
    }
    let text = decode_text(&pieces.strings[index])?;
    let _ = pieces.strings.remove(index);
    let removed_attributes = pieces.attributes.remove(index);
    let _ = additional.remove(index);
    assert(error::views(pieces.strings@) =~= parts.strings.remove(index as int));
    assert(error::views(pieces.attributes@) =~= parts.attributes.remove(index as int));
    assert(error::views(additional@) =~= others.remove(index as int));
    let string = pieces.strings.remove(0);
    let attributes = pieces.attributes.remove(0);
    assert(string@ == parts.strings.remove(index as int)[0]);
    assert(attributes@ == parts.attributes.remove(index as int)[0]);
    assert(error::views(pieces.strings@) =~= parts.strings.remove(index as int).skip(1));
    assert(error::views(pieces.attributes@) =~= parts.attributes.remove(index as int).skip(1));
    let string_array = encode_unless_empty(&pieces.strings)?;
    let attributes_array = encode_unless_empty(&pieces.attributes)?;
    let additional = encode_array(additional.as_slice())?;
    Ok(
        TextRemoval {
            removed: TextObjectData { text, attributes: removed_attributes },
            string,
            attributes,
            string_array,
            attributes_array,
            additional,
        },
    )
}

/// The statement that writes what a removal leaves.
pub open spec fn removal_statement() -> Seq<char> {
    "UPDATE Layer SET TextLayerString = ?1, TextLayerAttributes = ?2, TextLayerStringArray = ?3, TextLayerAttributesArray = ?4, TextLayerAddAttributesV01 = ?5 WHERE MainId = ?6"@
}

/// Bytes to bind that may not be there.
pub open spec fn optional_blob(data: Option<Seq<u8>>) -> sql::ParameterModel {
    match data {
        Some(data) => sql::ParameterModel::Blob(data),
        None => sql::ParameterModel::Null,
    }
}

fn bind_optional(data: Option<Vec<u8>>) -> (parameter: SqlParameter)
    ensures
        parameter@ == optional_blob(error::optional_bytes(data)),
{
    match data {
        Some(data) => SqlParameter::Blob(data),
        None => SqlParameter::Null,
    }
}

/// What a removal binds to its statement.
pub open spec fn removal_parameters(layer_id: i64, plan: RemovalModel) -> Seq<sql::ParameterModel> {
    seq![
        sql::ParameterModel::Blob(plan.string),
        sql::ParameterModel::Blob(plan.attributes),
        optional_blob(plan.string_array),
        optional_blob(plan.attributes_array),
        sql::ParameterModel::Blob(plan.additional),
        sql::ParameterModel::Integer(layer_id),
    ]
}

/// Whether carrying out a removal can have this outcome.
pub open spec fn removal_applied(
    connection: Connection,
    layer_id: i64,
    plan: RemovalModel,
    outcome: Result<TextObjectModel, Failure>,
) -> bool {
    one_row_changed(
        connection,
        layer_id,
        removal_statement(),
        removal_parameters(layer_id, plan),
        plan.removed,
        outcome,
    )
}

/// Whether removing an object can have this outcome.
pub open spec fn text_removed(
    connection: Connection,
    schema: Seq<database::TableModel>,
    layer_id: i64,
    index: int,
    limits: Limits,
    outcome: Result<TextObjectModel, Failure>,
) -> bool {
    exists|row: Result<TextRowModel, Failure>|
        #[trigger] text_row_read(
            connection,
            schema,
            layer_id,
            edit_columns(),
            edit_question(),
            Failure::Sqlite,
            "remove a text object"@,
            row,
        ) && match row {
            Err(failure) => outcome == Err::<TextObjectModel, Failure>(failure),
            Ok(row) => match removal_of(layer_id, row, index, limits) {
                Err(failure) => outcome == Err::<TextObjectModel, Failure>(failure),
                Ok(plan) => removal_applied(connection, layer_id, plan, outcome),
            },
        }
}

fn apply_removal(connection: &Connection, layer_id: i64, plan: TextRemoval) -> (removed: Result<
    TextObjectData,
    Error,
>)
    ensures
        removal_applied(*connection, layer_id, plan@, error::outcome(removed)),
{
    let ghost model = plan@;
    let mut parameters: Vec<SqlParameter> = Vec::new();
    parameters.push(SqlParameter::Blob(plan.string));
    parameters.push(SqlParameter::Blob(plan.attributes));
    parameters.push(bind_optional(plan.string_array));
    parameters.push(bind_optional(plan.attributes_array));
    parameters.push(SqlParameter::Blob(plan.additional));
    parameters.push(SqlParameter::Integer(layer_id));
    assert(error::views(parameters@) =~= seq![
        sql::ParameterModel::Blob(model.string),
        sql::ParameterModel::Blob(model.attributes),
        optional_blob(model.string_array),
        optional_blob(model.attributes_array),
        sql::ParameterModel::Blob(model.additional),
        sql::ParameterModel::Integer(layer_id),
    ]);
    match change_one_row(
        connection,
        "UPDATE Layer SET TextLayerString = ?1, TextLayerAttributes = ?2, TextLayerStringArray = ?3, TextLayerAttributesArray = ?4, TextLayerAddAttributesV01 = ?5 WHERE MainId = ?6",
        &parameters,
        layer_id,
    ) {
        Ok(()) => Ok(plan.removed),
        Err(error) => Err(error),
    }
}

/// Removes one text object while keeping the layer structurally valid.
pub fn remove_text_object(
    connection: &Connection,
    schema: &DatabaseSchema,
    layer_id: i64,
    object_index: usize,
    limits: Limits,
) -> (removed: Result<TextObjectData, Error>)
    ensures
        text_removed(
            *connection,
            schema@,
            layer_id,
            object_index as int,
            limits,
            error::outcome(removed),
        ),
{
    let row = read_edit_row(connection, schema, layer_id, "remove a text object");
    assert(text_row_read(
        *connection,
        schema@,
        layer_id,
        edit_columns(),
        edit_question(),
        Failure::Sqlite,
        "remove a text object"@,
        error::outcome(row),
    ));
    let row = row?;
    let plan = plan_removal(&row, layer_id, object_index, limits)?;
    apply_removal(connection, layer_id, plan)
}

impl EditableDatabase {
    /// Replaces the UTF-8 text of one existing object in a text layer.
    ///
    /// The object's opaque attribute record and every other text object are
    /// preserved byte-for-byte. `object_index` uses the order returned by
    /// [`Database::text_layer`]. Because the paired attribute format can store
    /// text-run offsets, every replacement character must have the same UTF-8
    /// byte width and UTF-16 code-unit width as the corresponding original
    /// character. This method does not synthesize a new text object.
    pub fn replace_text_object_text(
        &self,
        layer_id: i64,
        object_index: usize,
        text: &str,
        limits: Limits,
    ) -> (original: Result<String, Error>)
        ensures
            text_replaced(
                self.connection,
                self.schema@,
                layer_id,
                object_index as int,
                text@,
                limits,
                error::outcome(original),
            ),
    {
        replace_text_object_text(
            &self.connection,
            &self.schema,
            layer_id,
            object_index,
            text,
            limits,
        )
    }

    /// Appends a text object by cloning one existing object's opaque attributes.
    ///
    /// The layer must provide the observed string, attribute, and
    /// `TextLayerAddAttributesV01` array columns. The latter includes the
    /// primary object. Both opaque attribute records are cloned, and their
    /// parameter 50 values are replaced with the same newly allocated
    /// document-wide identifier before all three arrays are updated together.
    ///
    /// To keep every unknown run offset valid, each replacement character must
    /// have the same UTF-8 byte width and UTF-16 code-unit width as the
    /// corresponding template character. Geometry is cloned unchanged, so the
    /// new object may overlap the template. The returned index addresses the
    /// new object in [`Database::text_layer`].
    pub fn add_text_object_from_template(
        &self,
        layer_id: i64,
        template_index: usize,
        text: &str,
        limits: Limits,
    ) -> (summary: Result<TextObjectWriteSummary, Error>)
        ensures
            text_added(
                self.connection,
                self.schema@,
                layer_id,
                template_index as int,
                text@,
                limits,
                error::plain(summary),
            ),
    {
        add_text_object_from_template(
            &self.connection,
            &self.schema,
            layer_id,
            template_index,
            text,
            limits,
        )
    }

    /// Removes one text object while keeping the layer structurally valid.
    ///
    /// A text layer must retain at least one object. When the primary object
    /// (index zero) is removed, the next object is promoted into the primary
    /// string and attribute columns. The paired additional-attribute record is
    /// removed in the same update. The removed object is returned.
    pub fn remove_text_object(&self, layer_id: i64, object_index: usize, limits: Limits) -> (
    removed: Result<TextObjectData, Error>)
        ensures
            text_removed(
                self.connection,
                self.schema@,
                layer_id,
                object_index as int,
                limits,
                error::outcome(removed),
            ),
    {
        remove_text_object(&self.connection, &self.schema, layer_id, object_index, limits)
    }
}

} // verus!
