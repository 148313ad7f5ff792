//! The statements that add the rows of a cloned layer.

use vstd::prelude::*;

use crate::database;
use crate::database::quote_identifier;
use crate::error;
use crate::message;
use crate::message::Message;
use crate::raster_template;
use crate::raster_template::{BlockStorage, RasterLayerTemplate};
use crate::raster_tree;
use crate::sql;
use crate::sql::{copy_all, SqlParameter};
use crate::text_codec;
use crate::text_codec::{decode_utf8, same_text};

verus! {

/// A value that a cloned row has in place of the one of its template.
pub struct Replacement {
    pub column: &'static str,
    pub value: SqlParameter,
}

/// The model of a [`Replacement`].
#[verifier::ext_equal]
pub struct ReplacementModel {
    pub column: Seq<char>,
    pub value: sql::ParameterModel,
}

impl View for Replacement {
    type V = ReplacementModel;

    open spec fn view(&self) -> ReplacementModel {
        ReplacementModel { column: self.column@, value: self.value@ }
    }
}

/// A statement, and what is bound to it.
pub struct Step {
    pub sql: String,
    pub parameters: Vec<SqlParameter>,
    /// What to say when the statement does not change one row, before the number of rows
    /// that it changed if `tells_count`.
    pub complaint: String,
    pub tells_count: bool,
}

/// The model of a [`Step`].
#[verifier::ext_equal]
pub struct StepModel {
    pub sql: Seq<char>,
    pub parameters: Seq<sql::ParameterModel>,
    pub complaint: Seq<char>,
    pub tells_count: bool,
}

impl View for Step {
    type V = StepModel;

    open spec fn view(&self) -> StepModel {
        StepModel {
            sql: self.sql@,
            parameters: error::views(self.parameters@),
            complaint: self.complaint@,
            tells_count: self.tells_count,
        }
    }
}

/// The value that replaces the one in a column.
pub open spec fn replacement_for(
    replacements: Seq<ReplacementModel>,
    column: Seq<char>,
    at: int,
) -> Option<sql::ParameterModel>
    decreases replacements.len() - at,
{
    if at >= replacements.len() {
        None
    } else if replacements[at].column == column {
        Some(replacements[at].value)
    } else {
        replacement_for(replacements, column, at + 1)
    }
}

fn copy_parameter(parameter: &SqlParameter) -> (copy: SqlParameter)
    ensures
        copy@ == parameter@,
{
    match parameter {
        SqlParameter::Null => SqlParameter::Null,
        SqlParameter::Integer(value) => SqlParameter::Integer(*value),
        SqlParameter::Text(text) => SqlParameter::Text(text.clone()),
        SqlParameter::Blob(data) => SqlParameter::Blob(copy_all(data)),
    }
}

fn find_replacement(replacements: &Vec<Replacement>, column: &str) -> (value: Option<SqlParameter>)
    ensures
        error::optional(value) == replacement_for(error::views(replacements@), column@, 0),
{
    let ghost models = error::views(replacements@);
    let mut at: usize = 0;
    while at < replacements.len()
        invariant
            at <= replacements@.len(),
            models == error::views(replacements@),
            replacement_for(models, column@, 0) == replacement_for(models, column@, at as int),
        decreases replacements@.len() - at,
    {
        assert(models[at as int] == replacements@[at as int]@);
        if same_text(replacements[at].column, column) {
            return Some(copy_parameter(&replacements[at].value));
        }
        at = at + 1;
    }
    None
}

/// The first `count` columns, quoted, with commas between them.
pub open spec fn column_list(columns: Seq<Seq<char>>, count: int) -> Seq<char>
    decreases count,
{
    if count <= 0 {
        Seq::empty()
    } else if count == 1 {
        database::quoted_name(columns[0])
    } else {
        column_list(columns, count - 1) + ", "@ + database::quoted_name(columns[count - 1])
    }
}

/// What the first `count` columns of a clone are set to: a bound value where there is a
/// replacement, else the value of the template. With the values to bind.
pub open spec fn selection(
    columns: Seq<Seq<char>>,
    replacements: Seq<ReplacementModel>,
    count: int,
) -> (Seq<char>, Seq<sql::ParameterModel>)
    decreases count,
{
    if count <= 0 {
        (Seq::empty(), Seq::empty())
    } else {
        let (text, values) = selection(columns, replacements, count - 1);
        let separated = if count == 1 {
            text
        } else {
            text + ", "@
        };
        match replacement_for(replacements, columns[count - 1], 0) {
            Some(value) => (
                separated + "?"@ + message::decimal((values.len() + 1) as nat),
                values.push(value),
            ),
            None => (
                separated + "template."@ + database::quoted_name(columns[count - 1]),
                values,
            ),
        }
    }
}

/// The statement that adds a row: a copy of the row of the template, but for the
/// replacements.
pub open spec fn clone_step(
    table: Seq<char>,
    columns: Seq<Seq<char>>,
    template_id: i64,
    replacements: Seq<ReplacementModel>,
) -> StepModel {
    let (text, values) = selection(columns, replacements, columns.len() as int);
    let name = database::quoted_name(table);
    StepModel {
        sql: "INSERT INTO "@ + name + " ("@ + column_list(columns, columns.len() as int)
            + ") SELECT "@ + text + " FROM "@ + name + " AS template WHERE template.MainId = ?"@
            + message::decimal(error::one_more(values.len()) as nat),
        parameters: values.push(sql::ParameterModel::Integer(template_id)),
        complaint: "raster template "@ + table + " row "@ + message::decimal_signed(template_id as int)
            + " clone inserted "@,
        tells_count: true,
    }
}

proof fn selection_is_short(
    columns: Seq<Seq<char>>,
    replacements: Seq<ReplacementModel>,
    count: int,
)
    requires
        0 <= count,
    ensures
        selection(columns, replacements, count).1.len() <= count,
    decreases count,
{
    if count > 0 {
        selection_is_short(columns, replacements, count - 1);
    }
}

/// Makes the statement that adds a row.
pub fn make_clone_step(
    table: &str,
    columns: &Vec<String>,
    template_id: i64,
    replacements: &Vec<Replacement>,
) -> (step: Step)
    ensures
        step@ == clone_step(
            table@,
            raster_tree::texts(columns@),
            template_id,
            error::views(replacements@),
        ),
{
    assert(columns.len() == columns@.len());
    let ghost names = raster_tree::texts(columns@);
    let ghost models = error::views(replacements@);
    let mut list = Message::new("");
    let mut selected = Message::new("");
    let mut parameters: Vec<SqlParameter> = Vec::new();
    let mut at: usize = 0;
    proof {
        reveal_strlit("");
        assert(list@ =~= Seq::<char>::empty());
        assert(selected@ =~= Seq::<char>::empty());
        assert(error::views(parameters@) =~= Seq::<sql::ParameterModel>::empty());
    }
    while at < columns.len()
        invariant
            at <= columns@.len(),
            columns@.len() <= usize::MAX,
            names == raster_tree::texts(columns@),
            models == error::views(replacements@),
            list@ == column_list(names, at as int),
            selected@ == selection(names, models, at as int).0,
            error::views(parameters@) == selection(names, models, at as int).1,
        decreases columns@.len() - at,
    {
        assert(names[at as int] == columns@[at as int]@);
        let name = columns[at].as_str();
        let quoted = quote_identifier(name);
        if at > 0 {
            list = list.text(", ");
            selected = selected.text(", ");
        }
        list = list.text(quoted.as_str());
        proof {
            selection_is_short(names, models, at as int);
            assert(error::views(parameters@).len() == parameters@.len());
            assert(Seq::<char>::empty() + database::quoted_name(names[at as int])
                =~= database::quoted_name(names[at as int]));
        }
        match find_replacement(replacements, name) {
            Some(value) => {
                selected = selected.text("?").number(parameters.len() as u64 + 1);
                proof {
                    error::views_push(parameters@, value);
                }
                parameters.push(value);
            },
            None => {
                selected = selected.text("template.").text(quoted.as_str());
            },
        }
        at = at + 1;
    }
    proof {
        selection_is_short(names, models, at as int);
        assert(error::views(parameters@).len() == parameters@.len());
        error::views_push(parameters@, SqlParameter::Integer(template_id));
    }
    let quoted = quote_identifier(table);
    let place: u64 = (parameters.len() as u64).saturating_add(1);
    let sql = Message::new("INSERT INTO ").text(quoted.as_str()).text(" (").text(
        list.build().as_str(),
    ).text(") SELECT ").text(selected.build().as_str()).text(" FROM ").text(
        quoted.as_str(),
    ).text(" AS template WHERE template.MainId = ?").number(place).build();
    parameters.push(SqlParameter::Integer(template_id));
    let complaint = Message::new("raster template ").text(table).text(" row ").integer(
        template_id,
    ).text(" clone inserted ").build();
    Step { sql, parameters, complaint, tells_count: true }
}

/// The value that holds an external identifier; `None` where a text cannot.
pub open spec fn identifier_value(storage: BlockStorage, identifier: Seq<u8>) -> Option<
    sql::ParameterModel,
> {
    match storage {
        BlockStorage::Text => match text_codec::utf8_text(identifier) {
            Some(text) => Some(sql::ParameterModel::Text(text)),
            None => None,
        },
        BlockStorage::Blob => Some(sql::ParameterModel::Blob(identifier)),
    }
}

/// Makes the value that holds an external identifier.
pub fn stored_identifier(
    storage: BlockStorage,
    identifier: &Vec<u8>,
) -> (value: Option<SqlParameter>)
    ensures
        error::optional(value) == identifier_value(storage, identifier@),
{
    match storage {
        BlockStorage::Text => match decode_utf8(identifier.as_slice()) {
            Some(text) => Some(SqlParameter::Text(text)),
            None => None,
        },
        BlockStorage::Blob => Some(SqlParameter::Blob(copy_all(identifier))),
    }
}

/// What the rows of a cloned layer are called and hold. The columns and the largest IDs are
/// those of `Layer`, `Mipmap`, `MipmapInfo`, `Offscreen`, and `LayerThumbnail`.
pub struct CloneRows {
    pub layer_name: String,
    pub layer_id: i64,
    pub layer_uuid: String,
    pub mipmap_id: i64,
    pub mipmap_info_ids: Vec<i64>,
    pub offscreen_ids: Vec<i64>,
    pub thumbnail_id: i64,
    pub thumbnail_offscreen_id: i64,
    pub base_attribute: Vec<u8>,
    pub identifiers: Vec<Vec<u8>>,
    pub columns: Vec<Vec<String>>,
    pub maxima: Vec<i64>,
}

/// The model of [`CloneRows`].
#[verifier::ext_equal]
pub struct RowsModel {
    pub layer_name: Seq<char>,
    pub layer_id: i64,
    pub layer_uuid: Seq<char>,
    pub mipmap_id: i64,
    pub mipmap_info_ids: Seq<i64>,
    pub offscreen_ids: Seq<i64>,
    pub thumbnail_id: i64,
    pub thumbnail_offscreen_id: i64,
    pub base_attribute: Seq<u8>,
    pub identifiers: Seq<Seq<u8>>,
    pub columns: Seq<Seq<Seq<char>>>,
    pub maxima: Seq<i64>,
}

/// The texts of lists.
pub open spec fn text_lists(lists: Seq<Vec<String>>) -> Seq<Seq<Seq<char>>> {
    Seq::new(lists.len(), |i: int| raster_tree::texts(lists[i]@))
}

impl View for CloneRows {
    type V = RowsModel;

    open spec fn view(&self) -> RowsModel {
        RowsModel {
            layer_name: self.layer_name@,
            layer_id: self.layer_id,
            layer_uuid: self.layer_uuid@,
            mipmap_id: self.mipmap_id,
            mipmap_info_ids: self.mipmap_info_ids@,
            offscreen_ids: self.offscreen_ids@,
            thumbnail_id: self.thumbnail_id,
            thumbnail_offscreen_id: self.thumbnail_offscreen_id,
            base_attribute: self.base_attribute@,
            identifiers: error::views(self.identifiers@),
            columns: text_lists(self.columns@),
            maxima: self.maxima@,
        }
    }
}

/// Whether there are IDs and identifiers for every level of the template.
pub open spec fn rows_fit(template: raster_template::TemplateModel, rows: RowsModel) -> bool {
    &&& template.levels.len() > 0
    &&& rows.mipmap_info_ids.len() == template.levels.len()
    &&& rows.offscreen_ids.len() == template.levels.len()
    &&& rows.identifiers.len() == template.levels.len() + 1
    &&& rows.columns.len() == 5
    &&& rows.maxima.len() == 5
}

/// What the row of the cloned layer has in place of the values of its template.
pub open spec fn layer_changes(
    template: raster_template::TemplateModel,
    rows: RowsModel,
) -> Seq<ReplacementModel> {
    seq![
        ReplacementModel { column: "MainId"@, value: sql::ParameterModel::Integer(rows.layer_id) },
        ReplacementModel { column: "LayerName"@, value: sql::ParameterModel::Text(rows.layer_name) },
        ReplacementModel { column: "LayerSelect"@, value: sql::ParameterModel::Integer(0) },
        ReplacementModel { column: "LayerNextIndex"@, value: sql::ParameterModel::Integer(
            template.parent_first_child,
        ) },
        ReplacementModel { column: "LayerFirstChildIndex"@, value: sql::ParameterModel::Integer(0) },
        ReplacementModel { column: "LayerUuid"@, value: sql::ParameterModel::Text(rows.layer_uuid) },
        ReplacementModel { column: "LayerRenderMipmap"@, value: sql::ParameterModel::Integer(rows.mipmap_id) },
        ReplacementModel { column: "LayerLayerMaskMipmap"@, value: sql::ParameterModel::Integer(0) },
        ReplacementModel { column: "LayerRenderThumbnail"@, value: sql::ParameterModel::Integer(rows.thumbnail_id) },
        ReplacementModel { column: "LayerLayerMaskThumbnail"@, value: sql::ParameterModel::Integer(0) },
    ]
}

fn make_layer_changes(
    template: &RasterLayerTemplate,
    rows: &CloneRows,
) -> (changes: Vec<Replacement>)
    ensures
        error::views(changes@) == layer_changes(template@, rows@),
{
    let mut changes: Vec<Replacement> = Vec::new();
    changes.push(Replacement { column: "MainId", value: SqlParameter::Integer(rows.layer_id) });
    changes.push(
        Replacement { column: "LayerName", value: SqlParameter::Text(rows.layer_name.clone()) },
    );
    changes.push(Replacement { column: "LayerSelect", value: SqlParameter::Integer(0) });
    changes.push(
        Replacement { column: "LayerNextIndex", value: SqlParameter::Integer(
            template.parent_first_child,
        ) },
    );
    changes.push(Replacement { column: "LayerFirstChildIndex", value: SqlParameter::Integer(0) });
    changes.push(
        Replacement { column: "LayerUuid", value: SqlParameter::Text(rows.layer_uuid.clone()) },
    );
    changes.push(
        Replacement { column: "LayerRenderMipmap", value: SqlParameter::Integer(rows.mipmap_id) },
    );
    changes.push(Replacement { column: "LayerLayerMaskMipmap", value: SqlParameter::Integer(0) });
    changes.push(
        Replacement { column: "LayerRenderThumbnail", value: SqlParameter::Integer(rows.thumbnail_id) },
    );
    changes.push(
        Replacement { column: "LayerLayerMaskThumbnail", value: SqlParameter::Integer(0) },
    );
    assert(error::views(changes@) =~= layer_changes(template@, rows@));
    changes
}

/// What the mipmap of the cloned layer has in place of the values of its template.
pub open spec fn mipmap_changes(rows: RowsModel) -> Seq<ReplacementModel> {
    seq![
        ReplacementModel { column: "MainId"@, value: sql::ParameterModel::Integer(rows.mipmap_id) },
        ReplacementModel { column: "LayerId"@, value: sql::ParameterModel::Integer(rows.layer_id) },
        ReplacementModel { column: "BaseMipmapInfo"@, value: sql::ParameterModel::Integer(
            rows.mipmap_info_ids[0],
        ) },
    ]
}

fn make_mipmap_changes(rows: &CloneRows) -> (changes: Vec<Replacement>)
    requires
        rows@.mipmap_info_ids.len() > 0,
    ensures
        error::views(changes@) == mipmap_changes(rows@),
{
    let mut changes: Vec<Replacement> = Vec::new();
    changes.push(Replacement { column: "MainId", value: SqlParameter::Integer(rows.mipmap_id) });
    changes.push(Replacement { column: "LayerId", value: SqlParameter::Integer(rows.layer_id) });
    changes.push(
        Replacement { column: "BaseMipmapInfo", value: SqlParameter::Integer(
            rows.mipmap_info_ids[0],
        ) },
    );
    assert(error::views(changes@) =~= mipmap_changes(rows@));
    changes
}

/// The ID of the level after one, or zero.
pub open spec fn next_info(rows: RowsModel, level: int) -> i64 {
    if level + 1 < rows.mipmap_info_ids.len() {
        rows.mipmap_info_ids[level + 1]
    } else {
        0
    }
}

/// What a level of the cloned layer has in place of the values of its template.
pub open spec fn info_changes(rows: RowsModel, level: int) -> Seq<ReplacementModel> {
    seq![
        ReplacementModel { column: "MainId"@, value: sql::ParameterModel::Integer(
            rows.mipmap_info_ids[level],
        ) },
        ReplacementModel { column: "LayerId"@, value: sql::ParameterModel::Integer(rows.layer_id) },
        ReplacementModel { column: "Offscreen"@, value: sql::ParameterModel::Integer(
            rows.offscreen_ids[level],
        ) },
        ReplacementModel { column: "NextIndex"@, value: sql::ParameterModel::Integer(
            next_info(rows, level),
        ) },
    ]
}

fn make_info_changes(rows: &CloneRows, level: usize) -> (changes: Vec<Replacement>)
    requires
        level < rows@.mipmap_info_ids.len(),
        level < rows@.offscreen_ids.len(),
    ensures
        error::views(changes@) == info_changes(rows@, level as int),
{
    assert(rows.mipmap_info_ids.len() == rows.mipmap_info_ids@.len());
    let next: i64 = if rows.mipmap_info_ids.len() - level > 1 {
        rows.mipmap_info_ids[level + 1]
    } else {
        0
    };
    let mut changes: Vec<Replacement> = Vec::new();
    changes.push(
        Replacement { column: "MainId", value: SqlParameter::Integer(rows.mipmap_info_ids[level]) },
    );
    changes.push(Replacement { column: "LayerId", value: SqlParameter::Integer(rows.layer_id) });
    changes.push(
        Replacement { column: "Offscreen", value: SqlParameter::Integer(
            rows.offscreen_ids[level],
        ) },
    );
    changes.push(Replacement { column: "NextIndex", value: SqlParameter::Integer(next) });
    assert(error::views(changes@) =~= info_changes(rows@, level as int));
    changes
}

/// The attribute data of a level of the cloned layer.
pub open spec fn level_attribute(
    template: raster_template::TemplateModel,
    rows: RowsModel,
    level: int,
) -> Seq<u8> {
    if level == 0 {
        rows.base_attribute
    } else {
        template.levels[level].attribute
    }
}

/// What the offscreen row of a level has in place of the values of its template.
pub open spec fn offscreen_changes(
    template: raster_template::TemplateModel,
    rows: RowsModel,
    level: int,
    value: sql::ParameterModel,
) -> Seq<ReplacementModel> {
    seq![
        ReplacementModel { column: "MainId"@, value: sql::ParameterModel::Integer(
            rows.offscreen_ids[level],
        ) },
        ReplacementModel { column: "LayerId"@, value: sql::ParameterModel::Integer(rows.layer_id) },
        ReplacementModel { column: "Attribute"@, value: sql::ParameterModel::Blob(
            level_attribute(template, rows, level),
        ) },
        ReplacementModel { column: "BlockData"@, value: value },
    ]
}

fn make_offscreen_changes(
    template: &RasterLayerTemplate,
    rows: &CloneRows,
    level: usize,
    value: SqlParameter,
) -> (changes: Vec<Replacement>)
    requires
        level < template@.levels.len(),
        level < rows@.offscreen_ids.len(),
    ensures
        error::views(changes@) == offscreen_changes(template@, rows@, level as int, value@),
{
    let attribute = if level == 0 {
        copy_all(&rows.base_attribute)
    } else {
        copy_all(&template.levels[level].attribute)
    };
    assert(template@.levels[level as int] == template.levels@[level as int]@);
    let mut changes: Vec<Replacement> = Vec::new();
    changes.push(
        Replacement { column: "MainId", value: SqlParameter::Integer(rows.offscreen_ids[level]) },
    );
    changes.push(Replacement { column: "LayerId", value: SqlParameter::Integer(rows.layer_id) });
    changes.push(Replacement { column: "Attribute", value: SqlParameter::Blob(attribute) });
    changes.push(Replacement { column: "BlockData", value: value });
    assert(error::views(changes@) =~= offscreen_changes(template@, rows@, level as int, value@));
    changes
}

/// What the thumbnail of the cloned layer has in place of the values of its template.
pub open spec fn thumbnail_changes(rows: RowsModel) -> Seq<ReplacementModel> {
    seq![
        ReplacementModel { column: "MainId"@, value: sql::ParameterModel::Integer(rows.thumbnail_id) },
        ReplacementModel { column: "LayerId"@, value: sql::ParameterModel::Integer(rows.layer_id) },
        ReplacementModel { column: "ThumbnailOffscreen"@, value: sql::ParameterModel::Integer(
            rows.thumbnail_offscreen_id,
        ) },
    ]
}

fn make_thumbnail_changes(rows: &CloneRows) -> (changes: Vec<Replacement>)
    ensures
        error::views(changes@) == thumbnail_changes(rows@),
{
    let mut changes: Vec<Replacement> = Vec::new();
    changes.push(Replacement { column: "MainId", value: SqlParameter::Integer(rows.thumbnail_id) });
    changes.push(Replacement { column: "LayerId", value: SqlParameter::Integer(rows.layer_id) });
    changes.push(
        Replacement { column: "ThumbnailOffscreen", value: SqlParameter::Integer(
            rows.thumbnail_offscreen_id,
        ) },
    );
    assert(error::views(changes@) =~= thumbnail_changes(rows@));
    changes
}

/// What the offscreen row of the thumbnail has in place of the values of its template.
pub open spec fn atlas_changes(
    rows: RowsModel,
    value: sql::ParameterModel,
) -> Seq<ReplacementModel> {
    seq![
        ReplacementModel { column: "MainId"@, value: sql::ParameterModel::Integer(
            rows.thumbnail_offscreen_id,
        ) },
        ReplacementModel { column: "LayerId"@, value: sql::ParameterModel::Integer(rows.layer_id) },
        ReplacementModel { column: "BlockData"@, value: value },
    ]
}

fn make_atlas_changes(rows: &CloneRows, value: SqlParameter) -> (changes: Vec<Replacement>)
    ensures
        error::views(changes@) == atlas_changes(rows@, value@),
{
    let mut changes: Vec<Replacement> = Vec::new();
    changes.push(
        Replacement { column: "MainId", value: SqlParameter::Integer(rows.thumbnail_offscreen_id) },
    );
    changes.push(Replacement { column: "LayerId", value: SqlParameter::Integer(rows.layer_id) });
    changes.push(Replacement { column: "BlockData", value: value });
    assert(error::views(changes@) =~= atlas_changes(rows@, value@));
    changes
}

/// The statement that makes the cloned layer the first child of its parent, if the parent
/// still has the first child it had.
pub open spec fn link_step(template: raster_template::TemplateModel, rows: RowsModel) -> StepModel {
    StepModel {
        sql: "UPDATE Layer SET LayerFirstChildIndex = ?1 WHERE MainId = ?2 AND CanvasId = ?3 AND coalesce(LayerFirstChildIndex, 0) = ?4"@,
        parameters: seq![
            sql::ParameterModel::Integer(rows.layer_id),
            sql::ParameterModel::Integer(template.parent_layer_id),
            sql::ParameterModel::Integer(template.canvas_id),
            sql::ParameterModel::Integer(template.parent_first_child),
        ],
        complaint: "raster clone parent tree link changed during insertion"@,
        tells_count: false,
    }
}

fn make_link_step(template: &RasterLayerTemplate, rows: &CloneRows) -> (step: Step)
    ensures
        step@ == link_step(template@, rows@),
{
    let mut parameters: Vec<SqlParameter> = Vec::new();
    parameters.push(SqlParameter::Integer(rows.layer_id));
    parameters.push(SqlParameter::Integer(template.parent_layer_id));
    parameters.push(SqlParameter::Integer(template.canvas_id));
    parameters.push(SqlParameter::Integer(template.parent_first_child));
    let step = Step {
        sql: Message::new(
            "UPDATE Layer SET LayerFirstChildIndex = ?1 WHERE MainId = ?2 AND CanvasId = ?3 AND coalesce(LayerFirstChildIndex, 0) = ?4",
        ).build(),
        parameters,
        complaint: Message::new(
            "raster clone parent tree link changed during insertion",
        ).build(),
        tells_count: false,
    };
    assert(step@ =~= link_step(template@, rows@));
    step
}

/// The statement that records the last ID given in a table.
pub open spec fn scheme_step(table: Seq<char>, maximum: i64) -> StepModel {
    StepModel {
        sql: "UPDATE ElemScheme SET MaxIndex = ?1 WHERE TableName = ?2"@,
        parameters: seq![
            sql::ParameterModel::Integer(maximum),
            sql::ParameterModel::Text(table),
        ],
        complaint: "ElemScheme "@ + table + " update affected "@,
        tells_count: true,
    }
}

fn make_scheme_step(table: &str, maximum: i64) -> (step: Step)
    ensures
        step@ == scheme_step(table@, maximum),
{
    let mut parameters: Vec<SqlParameter> = Vec::new();
    parameters.push(SqlParameter::Integer(maximum));
    parameters.push(SqlParameter::Text(Message::new(table).build()));
    let step = Step {
        sql: Message::new("UPDATE ElemScheme SET MaxIndex = ?1 WHERE TableName = ?2").build(),
        parameters,
        complaint: Message::new("ElemScheme ").text(table).text(" update affected ").build(),
        tells_count: true,
    };
    assert(step@ =~= scheme_step(table@, maximum));
    step
}

/// Statements in order, and whether they end early because a value cannot be stored.
pub struct ClonePlan {
    pub steps: Vec<Step>,
    pub refused: bool,
}

/// The model of a [`ClonePlan`].
#[verifier::ext_equal]
pub struct PlanModel {
    pub steps: Seq<StepModel>,
    pub refused: bool,
}

impl View for ClonePlan {
    type V = PlanModel;

    open spec fn view(&self) -> PlanModel {
        PlanModel { steps: error::views(self.steps@), refused: self.refused }
    }
}

/// The statements for the levels from `level` on, after the ones in `steps`.
pub open spec fn level_steps(
    template: raster_template::TemplateModel,
    rows: RowsModel,
    level: int,
    steps: Seq<StepModel>,
) -> PlanModel
    decreases template.levels.len() - level,
{
    if level >= template.levels.len() {
        PlanModel { steps, refused: false }
    } else {
        let info = clone_step(
            "MipmapInfo"@,
            rows.columns[2],
            template.levels[level].info_id,
            info_changes(rows, level),
        );
        match identifier_value(
            template.levels[level].block_data_storage,
            rows.identifiers[level],
        ) {
            None => PlanModel { steps: steps.push(info), refused: true },
            Some(value) => level_steps(
                template,
                rows,
                level + 1,
                steps.push(info).push(
                    clone_step(
                        "Offscreen"@,
                        rows.columns[3],
                        template.levels[level].offscreen_id,
                        offscreen_changes(template, rows, level, value),
                    ),
                ),
            ),
        }
    }
}

/// The statements that add all rows but the last, and link them into the document.
pub open spec fn closing_steps(
    template: raster_template::TemplateModel,
    rows: RowsModel,
    value: sql::ParameterModel,
) -> Seq<StepModel> {
    seq![
        clone_step(
            "Offscreen"@,
            rows.columns[3],
            template.thumbnail_offscreen_id,
            atlas_changes(rows, value),
        ),
        link_step(template, rows),
        scheme_step("Layer"@, rows.maxima[0]),
        scheme_step("LayerThumbnail"@, rows.maxima[4]),
        scheme_step("Mipmap"@, rows.maxima[1]),
        scheme_step("MipmapInfo"@, rows.maxima[2]),
        scheme_step("Offscreen"@, rows.maxima[3]),
    ]
}

/// The statements that add the rows of a cloned layer.
pub open spec fn clone_plan(
    template: raster_template::TemplateModel,
    rows: RowsModel,
) -> PlanModel {
    let first = seq![
        clone_step(
            "Layer"@,
            rows.columns[0],
            template.layer_id,
            layer_changes(template, rows),
        ),
        clone_step("Mipmap"@, rows.columns[1], template.mipmap_id, mipmap_changes(rows)),
    ];
    let levels = level_steps(template, rows, 0, first);
    let thumbnail = clone_step(
        "LayerThumbnail"@,
        rows.columns[4],
        template.thumbnail_id,
        thumbnail_changes(rows),
    );
    if levels.refused {
        levels
    } else {
        match identifier_value(
            template.thumbnail_block_data_storage,
            rows.identifiers[rows.identifiers.len() - 1],
        ) {
            None => PlanModel { steps: levels.steps.push(thumbnail), refused: true },
            Some(value) => PlanModel {
                steps: levels.steps.push(thumbnail) + closing_steps(template, rows, value),
                refused: false,
            },
        }
    }
}

#[verifier::spinoff_prover]
fn plan_levels(
    template: &RasterLayerTemplate,
    rows: &CloneRows,
    steps: Vec<Step>,
) -> (plan: ClonePlan)
    requires
        rows_fit(template@, rows@),
    ensures
        plan@ == level_steps(template@, rows@, 0, error::views(steps@)),
{
    let ghost start = error::views(steps@);
    let ghost whole = level_steps(template@, rows@, 0, start);
    let mut list = steps;
    let mut level: usize = 0;
    while level < template.levels.len()
        invariant
            level <= template.levels@.len(),
            rows_fit(template@, rows@),
            start == error::views(steps@),
            whole == level_steps(template@, rows@, 0, start),
            whole == level_steps(template@, rows@, level as int, error::views(list@)),
        decreases template.levels@.len() - level,
    {
        let item = &template.levels[level];
        assert(template@.levels[level as int] == item@);
        assert(rows@.columns[2] == raster_tree::texts(rows.columns@[2]@));
        assert(rows@.columns[3] == raster_tree::texts(rows.columns@[3]@));
        assert(rows@.identifiers[level as int] == rows.identifiers@[level as int]@);
        let changes = make_info_changes(rows, level);
        let info = make_clone_step("MipmapInfo", &rows.columns[2], item.info_id, &changes);
        proof {
            error::views_push(list@, info);
        }
        list.push(info);
        let value = match stored_identifier(item.block_data_storage, &rows.identifiers[level]) {
            Some(value) => value,
            None => return ClonePlan { steps: list, refused: true },
        };
        let changes = make_offscreen_changes(template, rows, level, value);
        let offscreen = make_clone_step(
            "Offscreen",
            &rows.columns[3],
            item.offscreen_id,
            &changes,
        );
        proof {
            error::views_push(list@, offscreen);
        }
        list.push(offscreen);
        level = level + 1;
    }
    ClonePlan { steps: list, refused: false }
}

/// Plans the statements that add the rows of a cloned layer.
#[verifier::spinoff_prover]
#[verifier::rlimit(40)]
pub fn plan_raster_clone(template: &RasterLayerTemplate, rows: &CloneRows) -> (plan: ClonePlan)
    requires
        rows_fit(template@, rows@),
    ensures
        plan@ == clone_plan(template@, rows@),
{
    assert(rows@.columns[0] == raster_tree::texts(rows.columns@[0]@));
    assert(rows@.columns[1] == raster_tree::texts(rows.columns@[1]@));
    assert(rows@.columns[3] == raster_tree::texts(rows.columns@[3]@));
    assert(rows@.columns[4] == raster_tree::texts(rows.columns@[4]@));
    let mut first: Vec<Step> = Vec::new();
    let changes = make_layer_changes(template, rows);
    first.push(make_clone_step("Layer", &rows.columns[0], template.layer_id, &changes));
    let changes = make_mipmap_changes(rows);
    first.push(make_clone_step("Mipmap", &rows.columns[1], template.mipmap_id, &changes));
    assert(error::views(first@) =~= seq![
        clone_step(
            "Layer"@,
            rows@.columns[0],
            template@.layer_id,
            layer_changes(template@, rows@),
        ),
        clone_step("Mipmap"@, rows@.columns[1], template@.mipmap_id, mipmap_changes(rows@)),
    ]);
    let mut plan = plan_levels(template, rows, first);
    if plan.refused {
        return plan;
    }
    let ghost levels = plan@.steps;
    let changes = make_thumbnail_changes(rows);
    plan.steps.push(
        make_clone_step("LayerThumbnail", &rows.columns[4], template.thumbnail_id, &changes),
    );
    assert(plan@.steps =~= levels.push(
        clone_step(
            "LayerThumbnail"@,
            rows@.columns[4],
            template@.thumbnail_id,
            thumbnail_changes(rows@),
        ),
    ));
    let ghost shown = plan@.steps;
    let last: usize = rows.identifiers.len() - 1;
    assert(rows@.identifiers[last as int] == rows.identifiers@[last as int]@);
    let value = match stored_identifier(
        template.thumbnail_block_data_storage,
        &rows.identifiers[last],
    ) {
        Some(value) => value,
        None => return ClonePlan { steps: plan.steps, refused: true },
    };
    let ghost held = value@;
    let changes = make_atlas_changes(rows, value);
    plan.steps.push(
        make_clone_step(
            "Offscreen",
            &rows.columns[3],
            template.thumbnail_offscreen_id,
            &changes,
        ),
    );
    plan.steps.push(make_link_step(template, rows));
    plan.steps.push(make_scheme_step("Layer", rows.maxima[0]));
    plan.steps.push(make_scheme_step("LayerThumbnail", rows.maxima[4]));
    plan.steps.push(make_scheme_step("Mipmap", rows.maxima[1]));
    plan.steps.push(make_scheme_step("MipmapInfo", rows.maxima[2]));
    plan.steps.push(make_scheme_step("Offscreen", rows.maxima[3]));
    assert(plan@.steps =~= shown + closing_steps(template@, rows@, held));
    plan
}

proof fn column_named(columns: Seq<Seq<char>>, replacements: Seq<ReplacementModel>, count: int)
    requires
        0 <= count <= columns.len(),
    ensures
        forall|value: sql::ParameterModel| #[trigger]
            selection(columns, replacements, count).1.contains(value) ==> exists|i: int|
                0 <= i < replacements.len() && (#[trigger] replacements[i]).value == value,
    decreases count,
{
    if count > 0 {
        column_named(columns, replacements, count - 1);
        let before = selection(columns, replacements, count - 1).1;
        let after = selection(columns, replacements, count).1;
        assert forall|value: sql::ParameterModel| #[trigger] after.contains(value) implies exists|
            i: int,
        |
            0 <= i < replacements.len() && (#[trigger] replacements[i]).value == value by {
            let k = choose|k: int| 0 <= k < after.len() && after[k] == value;
            if k < before.len() {
                assert(before[k] == value);
                assert(before.contains(value));
            } else {
                replacement_found(replacements, columns[count - 1], 0);
            }
        }
    }
}

proof fn replacement_found(replacements: Seq<ReplacementModel>, column: Seq<char>, at: int)
    requires
        0 <= at,
        replacement_for(replacements, column, at) is Some,
    ensures
        exists|i: int|
            at <= i < replacements.len() && (#[trigger] replacements[i]).value == replacement_for(
                replacements,
                column,
                at,
            )->Some_0 && replacements[i].column == column,
    decreases replacements.len() - at,
{
    if replacements[at].column != column {
        replacement_found(replacements, column, at + 1);
    }
}

/// The statement that clones a row binds nothing but values of replacements, and last the
/// ID of the row of the template: every other column is copied from the template.
pub proof fn clone_binds_only_replacements(
    table: Seq<char>,
    columns: Seq<Seq<char>>,
    template_id: i64,
    replacements: Seq<ReplacementModel>,
)
    ensures
        ({
            let parameters = clone_step(table, columns, template_id, replacements).parameters;
            &&& parameters.len() > 0
            &&& parameters.last() == sql::ParameterModel::Integer(template_id)
            &&& forall|k: int|
                0 <= k < parameters.len() - 1 ==> exists|i: int|
                    0 <= i < replacements.len() && (#[trigger] replacements[i]).value == (
                    #[trigger] parameters[k])
        }),
{
    let values = selection(columns, replacements, columns.len() as int).1;
    let parameters = clone_step(table, columns, template_id, replacements).parameters;
    column_named(columns, replacements, columns.len() as int);
    assert forall|k: int| 0 <= k < parameters.len() - 1 implies exists|i: int|
        0 <= i < replacements.len() && (#[trigger] replacements[i]).value == (
        #[trigger] parameters[k]) by {
        assert(values[k] == parameters[k]);
        assert(values.contains(parameters[k]));
    }
}

/// A cloned layer goes in front of the layers of its parent: it leads on to what was the
/// first of them, and the parent leads to it. Each of its levels leads on to the next, and
/// the last to none.
pub proof fn clone_goes_in_front(
    template: raster_template::TemplateModel,
    rows: RowsModel,
    level: int,
)
    requires
        rows_fit(template, rows),
        0 <= level < template.levels.len(),
    ensures
        replacement_for(layer_changes(template, rows), "LayerNextIndex"@, 0) == Some(
            sql::ParameterModel::Integer(template.parent_first_child),
        ),
        replacement_for(layer_changes(template, rows), "LayerFirstChildIndex"@, 0) == Some(
            sql::ParameterModel::Integer(0),
        ),
        link_step(template, rows).parameters[0] == sql::ParameterModel::Integer(rows.layer_id),
        link_step(template, rows).parameters[1] == sql::ParameterModel::Integer(
            template.parent_layer_id,
        ),
        replacement_for(info_changes(rows, level), "NextIndex"@, 0) == Some(
            sql::ParameterModel::Integer(
                if level + 1 < template.levels.len() {
                    rows.mipmap_info_ids[level + 1]
                } else {
                    0
                },
            ),
        ),
{
    reveal_strlit("MainId");
    reveal_strlit("LayerName");
    reveal_strlit("LayerSelect");
    reveal_strlit("LayerNextIndex");
    reveal_strlit("LayerFirstChildIndex");
    reveal_strlit("LayerId");
    reveal_strlit("Offscreen");
    reveal_strlit("NextIndex");
    let layer = layer_changes(template, rows);
    let next = "LayerNextIndex"@;
    let child = "LayerFirstChildIndex"@;
    assert(next.len() == 14 && child.len() == 20);
    assert(layer[0].column == "MainId"@ && "MainId"@.len() == 6);
    assert(layer[1].column == "LayerName"@ && "LayerName"@.len() == 9);
    assert(layer[2].column == "LayerSelect"@ && "LayerSelect"@.len() == 11);
    assert(layer[3].column == next);
    assert(layer[4].column == child);
    assert(layer[0].column != next && layer[1].column != next && layer[2].column != next);
    assert(replacement_for(layer, next, 2) == replacement_for(layer, next, 3));
    assert(replacement_for(layer, next, 1) == replacement_for(layer, next, 2));
    assert(replacement_for(layer, next, 0) == replacement_for(layer, next, 1));
    assert(layer[0].column != child && layer[1].column != child && layer[2].column != child
        && layer[3].column != child);
    assert(replacement_for(layer, child, 3) == replacement_for(layer, child, 4));
    assert(replacement_for(layer, child, 2) == replacement_for(layer, child, 3));
    assert(replacement_for(layer, child, 1) == replacement_for(layer, child, 2));
    assert(replacement_for(layer, child, 0) == replacement_for(layer, child, 1));
    let info = info_changes(rows, level);
    let following = "NextIndex"@;
    assert("Offscreen"@[0] != following[0]);
    assert(info[0].column != following && info[1].column != following && info[2].column
        != following);
    assert(replacement_for(info, following, 2) == replacement_for(info, following, 3));
    assert(replacement_for(info, following, 1) == replacement_for(info, following, 2));
    assert(replacement_for(info, following, 0) == replacement_for(info, following, 1));
}

} // verus!
