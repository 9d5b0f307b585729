//! The statistics query against the `nba_stats` table.
use vstd::prelude::*;
use crate::domain::stat::{column_name, StatValue};
use crate::text::{join, joined, views};

verus! {

/// The database columns of `values`, in order.
pub open spec fn columns_of(values: Seq<StatValue>) -> Seq<Seq<char>> {
    values.map_values(|v: StatValue| column_name(v))
}

/// The query that reads the key columns and the columns of `values` of every stored event
/// of a season (the season is bound as `$1`). Only fixed column names enter the text.
pub open spec fn statistics_query_text(values: Seq<StatValue>) -> Seq<char> {
    "SELECT t1, t2, season, team, player, "@ + joined(columns_of(values), ", "@)
        + query_tail()
}

/// The text that ends every statistics query.
pub open spec fn query_tail() -> Seq<char> {
    " FROM nba_stats WHERE season = $1"@
}

/// The select list holds one column per requested value, in request order: a request for
/// one value reads the key columns and that value's column, and each further value adds
/// `, ` and its column at the end of the select list, right before the `FROM` part.
pub proof fn law_each_value_adds_its_column(values: Seq<StatValue>, v: StatValue)
    ensures
        statistics_query_text(seq![v]) == "SELECT t1, t2, season, team, player, "@ + column_name(v)
            + query_tail(),
        values.len() > 0 ==> {
            let q = statistics_query_text(values);
            statistics_query_text(values.push(v)) == q.subrange(
                0,
                q.len() - query_tail().len(),
            ) + ", "@ + column_name(v) + query_tail()
        },
{
    let head = "SELECT t1, t2, season, team, player, "@;
    assert(columns_of(seq![v]) =~= seq![column_name(v)]);
    if values.len() > 0 {
        let cs = columns_of(values);
        assert(columns_of(values.push(v)) =~= cs.push(column_name(v)));
        assert(cs.push(column_name(v)).drop_last() =~= cs);
        let q = statistics_query_text(values);
        assert(q == head + joined(cs, ", "@) + query_tail());
        assert(q.subrange(0, q.len() - query_tail().len()) =~= head + joined(cs, ", "@));
        assert(statistics_query_text(values.push(v)) =~= head + joined(cs, ", "@) + ", "@
            + column_name(v) + query_tail());
    }
}

/// Builds the statistics query for `values`.
pub fn statistics_query(values: &[StatValue]) -> (r: String)
    ensures
        r@ == statistics_query_text(values@),
{
    let mut columns: Vec<String> = Vec::new();
    let mut i: usize = 0;
    while i < values.len()
        invariant
            0 <= i <= values@.len(),
            columns@.len() == i,
            views(columns@) == columns_of(values@.take(i as int)),
        decreases values@.len() - i,
    {
        let ghost before = columns@;
        let column = String::from_str(values[i].database_column());
        columns.push(column);
        assert forall|k: int| 0 <= k < i + 1 implies #[trigger] views(columns@)[k]
            == columns_of(values@.take(i + 1))[k] by {
            if k < i {
                assert(columns@[k] == before[k]);
                assert(views(before)[k] == columns_of(values@.take(i as int))[k]);
                assert(values@.take(i + 1)[k] == values@.take(i as int)[k]);
            }
        }
        assert(views(columns@) =~= columns_of(values@.take(i + 1)));
        i = i + 1;
    }
    assert(values@.take(values@.len() as int) == values@);
    let mut query = String::from_str("SELECT t1, t2, season, team, player, ");
    let list = join(&columns, ", ");
    query.append(list.as_str());
    query.append(" FROM nba_stats WHERE season = $1");
    query
}

} // verus!
