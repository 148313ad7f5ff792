//! Which rulers a layer has, and in what order.

use rusqlite::Connection;
use vstd::prelude::*;

use crate::columns::gives_reference;
use crate::database;
use crate::error::Failure;
use crate::limits::Limits;
use crate::ruler;
use crate::ruler::{
    ChainScope, RulerLayerModel, RulerModel, RulerOwner, RulerScope, VanishPointModel,
};
use crate::sql;
use crate::sql::{ParameterModel, SqlModel};

verus! {

/// Whether a row of a linked list was said to be of the layer and canvas, and to lead to a row.
pub open spec fn row_leads(
    connection: Connection,
    scope: ChainScope,
    id: i64,
    next: Option<i64>,
) -> bool {
    exists|reply: sql::ReplyModel|
        {
            &&& #[trigger] sql::may_answer(
                connection,
                "SELECT LayerId, CanvasId, NextIndex FROM "@ + scope.table
                    + " WHERE MainId = ?1"@,
                seq![ParameterModel::Integer(id)],
                reply,
            )
            &&& reply.rows.len() > 0
            &&& reply.rows[0].len() > 2
            &&& reply.rows[0][0] == SqlModel::Integer(scope.layer_id)
            &&& reply.rows[0][1] == SqlModel::Integer(scope.canvas_id)
            &&& gives_reference(reply.rows[0][2], next)
        }
}

/// The row after a place of a list, if there is one, or else what comes after the list.
pub open spec fn after(list: Seq<i64>, at: int, end: Option<i64>) -> Option<i64> {
    if at + 1 < list.len() {
        Some(list[at + 1])
    } else {
        end
    }
}

/// Each row of a linked list that was followed leads to the next row of it, and the last one
/// leads nowhere. All are rows of the layer and canvas.
pub proof fn followed_rows_lead_on(
    connection: Connection,
    scope: ChainScope,
    current: Option<i64>,
    ids: Seq<i64>,
    list: Seq<i64>,
)
    requires
        ruler::chain_followed(connection, scope, current, ids, Ok(list)),
        ids.len() <= scope.limit,
        forall|i: int|
            0 <= i < ids.len() ==> row_leads(
                connection,
                scope,
                #[trigger] ids[i],
                after(ids, i, current),
            ),
    ensures
        forall|i: int|
            0 <= i < list.len() ==> row_leads(
                connection,
                scope,
                #[trigger] list[i],
                after(list, i, None),
            ),
    decreases scope.limit - ids.len(),
{
    let outcome = Ok::<Seq<i64>, Failure>(list);
    match current {
        None => {
            assert(list == ids);
        },
        Some(id) => {
            let reply = choose|reply: sql::ReplyModel|
                #[trigger] sql::may_answer(
                    connection,
                    ruler::chain_question(scope.table),
                    seq![ParameterModel::Integer(id)],
                    reply,
                ) && match ruler::next_row_of(
                    reply,
                    scope.table,
                    id,
                    scope.layer_id,
                    scope.canvas_id,
                ) {
                    Err(failure) => outcome == Err::<Seq<i64>, Failure>(failure),
                    Ok(next) => ruler::chain_followed(
                        connection,
                        scope,
                        next,
                        ids.push(id),
                        outcome,
                    ),
                };
            let next = ruler::next_row_of(
                reply,
                scope.table,
                id,
                scope.layer_id,
                scope.canvas_id,
            )->Ok_0;
            let row = reply.rows[0];
            assert(sql::integer_at(row, 0) is Ok && sql::integer_at(row, 1) is Ok);
            assert(sql::optional_integer_at(row, 2) is Ok);
            assert(gives_reference(row[2], next));
            assert(row_leads(connection, scope, id, next));
            let more = ids.push(id);
            assert forall|i: int| 0 <= i < more.len() implies row_leads(
                connection,
                scope,
                #[trigger] more[i],
                after(more, i, next),
            ) by {
                if i < ids.len() {
                    assert(more[i] == ids[i]);
                    assert(row_leads(connection, scope, ids[i], after(ids, i, current)));
                    assert(after(more, i, next) == after(ids, i, current));
                }
            }
            followed_rows_lead_on(connection, scope, next, more, list);
        },
    }
}

/// The vanishing points of a ruler are read one for each row of their list, in order.
pub proof fn every_vanishing_point_is_read_in_order(
    connection: Connection,
    schema: Seq<database::TableModel>,
    ids: Seq<i64>,
    limits: Limits,
    at: int,
    found: Seq<VanishPointModel>,
    points: Seq<VanishPointModel>,
)
    requires
        0 <= at <= ids.len(),
        found.len() == at,
        forall|i: int|
            0 <= i < at ==> ruler::vanish_point_read(
                connection,
                schema,
                ids[i],
                limits,
                Ok(#[trigger] found[i]),
            ),
        ruler::vanish_points_read(connection, schema, ids, limits, at, found, Ok(points)),
    ensures
        points.len() == ids.len(),
        forall|i: int|
            0 <= i < ids.len() ==> ruler::vanish_point_read(
                connection,
                schema,
                ids[i],
                limits,
                Ok(#[trigger] points[i]),
            ),
    decreases ids.len() - at,
{
    if at < ids.len() {
        let outcome = Ok::<Seq<VanishPointModel>, Failure>(points);
        let point = choose|point: Result<VanishPointModel, Failure>|
            #[trigger] ruler::vanish_point_read(
                connection,
                schema,
                ids[at],
                limits,
                point,
            ) && match point {
                Err(failure) => outcome == Err::<Seq<VanishPointModel>, Failure>(failure),
                Ok(point) => ruler::vanish_points_read(
                    connection,
                    schema,
                    ids,
                    limits,
                    at + 1,
                    found.push(point),
                    outcome,
                ),
            };
        let point = point->Ok_0;
        let more = found.push(point);
        assert forall|i: int| 0 <= i < more.len() implies ruler::vanish_point_read(
            connection,
            schema,
            ids[i],
            limits,
            Ok(#[trigger] more[i]),
        ) by {
            if i < at {
                assert(more[i] == found[i]);
            }
        }
        every_vanishing_point_is_read_in_order(
            connection,
            schema,
            ids,
            limits,
            at + 1,
            more,
            points,
        );
    }
}

/// The kinds and rows of all rulers from a kind on, kind by kind.
pub open spec fn ruler_places(chains: Seq<Seq<i64>>, index: int) -> Seq<(int, i64)>
    decreases 9 - index,
{
    if index >= 9 {
        Seq::empty()
    } else {
        kind_places(chains[index], index, 0) + ruler_places(chains, index + 1)
    }
}

/// The kinds and rows of the rulers of one kind from a place of its list on.
pub open spec fn kind_places(chain: Seq<i64>, index: int, at: int) -> Seq<(int, i64)> {
    Seq::new((chain.len() - at) as nat, |i: int| (index, chain[at + i]))
}

/// Whether the lists of rulers from a kind on are those that a manager names.
pub open spec fn are_chains(
    connection: Connection,
    schema: Seq<database::TableModel>,
    scope: RulerScope,
    first: Seq<Option<i64>>,
    chains: Seq<Seq<i64>>,
    index: int,
) -> bool {
    &&& chains.len() == 9
    &&& forall|k: int|
        index <= k < 9 ==> match first[k] {
            None => (#[trigger] chains[k]).len() == 0,
            Some(id) => ruler::chain_read(
                connection,
                schema,
                ruler::chain_scope(
                    ruler::kind_table(ruler::kind_at(k)),
                    scope.layer_id,
                    scope.canvas_id,
                    scope.limits,
                ),
                id,
                Ok(chains[k]),
            ),
        }
}

/// Whether rulers are those of kinds and rows, one for each and in order.
pub open spec fn are_rulers_at(
    connection: Connection,
    schema: Seq<database::TableModel>,
    scope: RulerScope,
    places: Seq<(int, i64)>,
    rulers: Seq<RulerModel>,
) -> bool {
    &&& rulers.len() == places.len()
    &&& forall|i: int|
        0 <= i < rulers.len() ==> ruler::ruler_read(
            connection,
            schema,
            ruler::kind_at(places[i].0),
            places[i].1,
            scope.layer_id,
            scope.canvas_id,
            scope.limits,
            Ok(#[trigger] rulers[i]),
        )
}

/// Whether rulers go on after those found, with all rulers from a place in the list of a kind
/// on.
pub open spec fn rulers_go_on(
    connection: Connection,
    schema: Seq<database::TableModel>,
    scope: RulerScope,
    places: Seq<(int, i64)>,
    found: Seq<RulerModel>,
    rulers: Seq<RulerModel>,
) -> bool {
    &&& found.is_prefix_of(rulers)
    &&& are_rulers_at(connection, schema, scope, places, rulers.skip(found.len() as int))
}

proof fn listed_rulers_go_on(
    connection: Connection,
    schema: Seq<database::TableModel>,
    scope: RulerScope,
    first: Seq<Option<i64>>,
    index: int,
    ids: Seq<i64>,
    at: int,
    found: Seq<RulerModel>,
    rulers: Seq<RulerModel>,
) -> (chains: Seq<Seq<i64>>)
    requires
        0 <= index < 9,
        0 <= at <= ids.len(),
        ruler::listed_rulers_read(
            connection,
            schema,
            scope,
            first,
            index,
            ids,
            at,
            found,
            Ok(rulers),
        ),
    ensures
        are_chains(connection, schema, scope, first, chains, index + 1),
        rulers_go_on(
            connection,
            schema,
            scope,
            kind_places(ids, index, at) + ruler_places(chains, index + 1),
            found,
            rulers,
        ),
    decreases 9 - index, 0int, ids.len() - at,
{
    if at >= ids.len() {
        let chains = all_rulers_go_on(
            connection,
            schema,
            scope,
            first,
            index + 1,
            found,
            rulers,
        );
        assert(kind_places(ids, index, at) + ruler_places(chains, index + 1) =~= ruler_places(
            chains,
            index + 1,
        ));
        chains
    } else {
        let outcome = Ok::<Seq<RulerModel>, Failure>(rulers);
        let ruler = choose|ruler: Result<RulerModel, Failure>|
            #[trigger] ruler::ruler_read(
                connection,
                schema,
                ruler::kind_at(index),
                ids[at],
                scope.layer_id,
                scope.canvas_id,
                scope.limits,
                ruler,
            ) && match ruler {
                Err(failure) => outcome == Err::<Seq<RulerModel>, Failure>(failure),
                Ok(ruler) => ruler::listed_rulers_read(
                    connection,
                    schema,
                    scope,
                    first,
                    index,
                    ids,
                    at + 1,
                    found.push(ruler),
                    outcome,
                ),
            };
        let ruler = ruler->Ok_0;
        let more = found.push(ruler);
        let chains = listed_rulers_go_on(
            connection,
            schema,
            scope,
            first,
            index,
            ids,
            at + 1,
            more,
            rulers,
        );
        let places = kind_places(ids, index, at) + ruler_places(chains, index + 1);
        let later = kind_places(ids, index, at + 1) + ruler_places(chains, index + 1);
        one_ruler_before(connection, schema, scope, later, index, ids[at], found, ruler, rulers);
        assert(places =~= seq![(index, ids[at])] + later);
        chains
    }
}

proof fn one_ruler_before(
    connection: Connection,
    schema: Seq<database::TableModel>,
    scope: RulerScope,
    later: Seq<(int, i64)>,
    index: int,
    id: i64,
    found: Seq<RulerModel>,
    ruler: RulerModel,
    rulers: Seq<RulerModel>,
)
    requires
        rulers_go_on(connection, schema, scope, later, found.push(ruler), rulers),
        ruler::ruler_read(
            connection,
            schema,
            ruler::kind_at(index),
            id,
            scope.layer_id,
            scope.canvas_id,
            scope.limits,
            Ok(ruler),
        ),
    ensures
        rulers_go_on(connection, schema, scope, seq![(index, id)] + later, found, rulers),
{
    let places = seq![(index, id)] + later;
    let all = rulers.skip(found.len() as int);
    let rest = rulers.skip(found.len() + 1int);
    assert(found.push(ruler).is_prefix_of(rulers));
    assert(found =~= rulers.take(found.len() as int)) by {
        assert forall|i: int| 0 <= i < found.len() implies found[i] == #[trigger] rulers[i] by {
            assert(found.push(ruler)[i] == rulers.take(found.len() + 1int)[i]);
        }
    }
    assert(all[0] == ruler) by {
        assert(found.push(ruler)[found.len() as int] == rulers[found.len() as int]);
    }
    assert forall|i: int| 0 <= i < all.len() implies ruler::ruler_read(
        connection,
        schema,
        ruler::kind_at(places[i].0),
        places[i].1,
        scope.layer_id,
        scope.canvas_id,
        scope.limits,
        Ok(#[trigger] all[i]),
    ) by {
        if i > 0 {
            assert(all[i] == rest[i - 1]);
            assert(places[i] == later[i - 1]);
        }
    }
}

proof fn all_rulers_go_on(
    connection: Connection,
    schema: Seq<database::TableModel>,
    scope: RulerScope,
    first: Seq<Option<i64>>,
    index: int,
    found: Seq<RulerModel>,
    rulers: Seq<RulerModel>,
) -> (chains: Seq<Seq<i64>>)
    requires
        0 <= index <= 9,
        ruler::rulers_read(connection, schema, scope, first, index, found, Ok(rulers)),
    ensures
        are_chains(connection, schema, scope, first, chains, index),
        rulers_go_on(connection, schema, scope, ruler_places(chains, index), found, rulers),
    decreases 9 - index, 1int, 0int,
{
    let outcome = Ok::<Seq<RulerModel>, Failure>(rulers);
    if index >= 9 {
        let chains = Seq::new(9, |k: int| Seq::<i64>::empty());
        assert(rulers.skip(found.len() as int) =~= Seq::<RulerModel>::empty());
        chains
    } else {
        match first[index] {
            None => {
                let later = all_rulers_go_on(
                    connection,
                    schema,
                    scope,
                    first,
                    index + 1,
                    found,
                    rulers,
                );
                let chains = later.update(index, Seq::empty());
                same_places(later, chains, index + 1);
                assert(ruler_places(chains, index) =~= ruler_places(later, index + 1));
                assert forall|k: int|
                    index + 1 <= k < 9 implies later[k] == #[trigger] chains[k] by {}
                chains
            },
            Some(id) => {
                let ids = choose|ids: Result<Seq<i64>, Failure>|
                    #[trigger] ruler::chain_read(
                        connection,
                        schema,
                        ruler::chain_scope(
                            ruler::kind_table(ruler::kind_at(index)),
                            scope.layer_id,
                            scope.canvas_id,
                            scope.limits,
                        ),
                        id,
                        ids,
                    ) && match ids {
                        Err(failure) => outcome == Err::<Seq<RulerModel>, Failure>(failure),
                        Ok(ids) => ruler::listed_rulers_read(
                            connection,
                            schema,
                            scope,
                            first,
                            index,
                            ids,
                            0,
                            found,
                            outcome,
                        ),
                    };
                let ids = ids->Ok_0;
                let later = listed_rulers_go_on(
                    connection,
                    schema,
                    scope,
                    first,
                    index,
                    ids,
                    0,
                    found,
                    rulers,
                );
                let chains = later.update(index, ids);
                same_places(later, chains, index + 1);
                assert forall|k: int|
                    index + 1 <= k < 9 implies later[k] == #[trigger] chains[k] by {}
                chains
            },
        }
    }
}

proof fn same_places(left: Seq<Seq<i64>>, right: Seq<Seq<i64>>, index: int)
    requires
        forall|k: int| index <= k < 9 ==> left[k] == #[trigger] right[k],
    ensures
        ruler_places(left, index) == ruler_places(right, index),
    decreases 9 - index,
{
    if index < 9 {
        assert(left[index] == right[index]);
        same_places(left, right, index + 1);
    }
}

/// The rulers of a layer are those of the lists that its manager names, kind by kind, and in
/// each kind one for each row of the list, in order.
pub proof fn rulers_are_read_kind_by_kind(
    connection: Connection,
    schema: Seq<database::TableModel>,
    scope: RulerScope,
    first: Seq<Option<i64>>,
    rulers: Seq<RulerModel>,
)
    requires
        ruler::rulers_read(connection, schema, scope, first, 0, Seq::empty(), Ok(rulers)),
    ensures
        exists|chains: Seq<Seq<i64>>|
            #[trigger] are_chains(connection, schema, scope, first, chains, 0) && are_rulers_at(
                connection,
                schema,
                scope,
                ruler_places(chains, 0),
                rulers,
            ),
{
    let none = Seq::<RulerModel>::empty();
    let chains = all_rulers_go_on(connection, schema, scope, first, 0, none, rulers);
    assert(rulers.skip(0) =~= rulers);
    assert(are_chains(connection, schema, scope, first, chains, 0));
}

/// A layer with rulers has the canvas, scope, vector object and manager that its row tells, and
/// no rulers without a manager.
pub proof fn ruler_layer_is_that_of_its_owner(
    connection: Connection,
    schema: Seq<database::TableModel>,
    layer_id: i64,
    owner: RulerOwner,
    limits: Limits,
    layer: RulerLayerModel,
)
    requires
        ruler::owned_rulers_read(connection, schema, layer_id, owner, limits, Ok(Some(layer))),
    ensures
        layer.layer_id == layer_id,
        layer.canvas_id == owner.canvas_id,
        layer.scope == owner.scope,
        layer.vector_object_id == owner.vector_object_id,
        layer.manager_id == owner.manager_id,
        owner.manager_id is None ==> layer.rulers.len() == 0,
        owner.manager_id matches Some(manager_id) ==> exists|first: Seq<Option<i64>>|
            #[trigger] ruler::manager_read(
                connection,
                schema,
                manager_id,
                layer_id,
                owner.canvas_id,
                Ok(first),
            ) && ruler::rulers_read(
                connection,
                schema,
                RulerScope { layer_id, canvas_id: owner.canvas_id, limits },
                first,
                0,
                Seq::empty(),
                Ok(layer.rulers),
            ),
{
    let outcome = Ok::<Option<RulerLayerModel>, Failure>(Some(layer));
    if let Some(manager_id) = owner.manager_id {
        assert(ruler::managed_rulers_read(
            connection,
            schema,
            layer_id,
            owner,
            manager_id,
            limits,
            outcome,
        ));
        let first = choose|first: Result<Seq<Option<i64>>, Failure>|
            #[trigger] ruler::manager_read(
                connection,
                schema,
                manager_id,
                layer_id,
                owner.canvas_id,
                first,
            ) && match first {
                Err(failure) => outcome == Err::<Option<RulerLayerModel>, Failure>(failure),
                Ok(first) => ruler::kinds_read(
                    connection,
                    schema,
                    layer_id,
                    owner,
                    first,
                    limits,
                    outcome,
                ),
            };
        let scope = RulerScope { layer_id, canvas_id: owner.canvas_id, limits };
        let rulers = choose|rulers: Result<Seq<RulerModel>, Failure>|
            #[trigger] ruler::rulers_read(
                connection,
                schema,
                scope,
                first->Ok_0,
                0,
                Seq::empty(),
                rulers,
            ) && outcome == ruler::ruler_layer_with(layer_id, owner, rulers);
        assert(rulers == Ok::<Seq<RulerModel>, Failure>(rulers->Ok_0));
        assert(first == Ok::<Seq<Option<i64>>, Failure>(first->Ok_0));
    }
}

} // verus!
