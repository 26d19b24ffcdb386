//! Vectors of texts, from a service that speaks as OpenAI does.

use vstd::prelude::*;

use crate::json::{copy_items, Json, JsonView};
use crate::json::items_view;
use crate::model::messages::{object2, str_json};
use crate::model::messages::make_object2;
use crate::model::openai::without_slashes;
use crate::model::openai::trim_slashes;
use crate::settings::ModelProvider;
use crate::text::{concat2, concat3, concat4, copy_str, decimal_of, is_blank};
use crate::text::{decimal, is_blank_text, strings};

verus! {

/// What calls for vectors are booked under.
pub const EMBED_USAGE_SOURCE: &'static str = "knowledge_base";

// ---------------------------------------------------------------------
// Requests
// ---------------------------------------------------------------------

/// The keys that are not blank, in order.
pub open spec fn usable_keys(keys: Seq<Seq<char>>) -> Seq<Seq<char>>
    decreases keys.len(),
{
    if keys.len() == 0 {
        Seq::empty()
    } else {
        let before = usable_keys(keys.drop_last());
        if is_blank_text(keys.last()) {
            before
        } else {
            before.push(keys.last())
        }
    }
}

fn copy_usable_keys(keys: &Vec<String>) -> (r: Vec<String>)
    ensures
        strings(r@) == usable_keys(strings(keys@)),
{
    let ghost all = strings(keys@);
    let mut out: Vec<String> = Vec::new();
    let mut i: usize = 0;
    assert(all.take(0) =~= Seq::<Seq<char>>::empty());
    assert(strings(out@) =~= Seq::<Seq<char>>::empty());
    while i < keys.len()
        invariant
            i <= keys@.len(),
            all == strings(keys@),
            strings(out@) == usable_keys(all.take(i as int)),
        decreases keys@.len() - i,
    {
        assert(all.take(i + 1).drop_last() =~= all.take(i as int));
        assert(all.take(i + 1).last() == keys@[i as int]@);
        if !is_blank(keys[i].as_str()) {
            let ghost before = out@;
            let key = keys[i].clone();
            out.push(key);
            assert(strings(out@) =~= strings(before).push(key@));
        }
        i += 1;
    }
    assert(all.take(all.len() as int) =~= all);
    out
}

/// The texts as values.
pub open spec fn text_items(texts: Seq<Seq<char>>) -> Seq<JsonView> {
    Seq::new(texts.len(), |i: int| str_json(texts[i]))
}

fn make_text_items(texts: &Vec<String>) -> (r: Vec<Json>)
    ensures
        items_view(r@) == text_items(strings(texts@)),
{
    let mut out: Vec<Json> = Vec::new();
    let mut i: usize = 0;
    while i < texts.len()
        invariant
            i <= texts@.len(),
            out@.len() == i,
            forall|j: int| 0 <= j < i ==> (#[trigger] out@[j])@ == str_json(texts@[j]@),
        decreases texts@.len() - i,
    {
        out.push(Json::string(texts[i].as_str()));
        i += 1;
    }
    assert(items_view(out@) =~= text_items(strings(texts@)));
    out
}

/// A request for vectors.
#[derive(Debug)]
pub struct EmbedCall {
    pub url: String,
    pub body: Json,
    pub keys: Vec<String>,
}

/// The value of a request for vectors.
#[verifier::ext_equal]
pub struct EmbedView {
    pub url: Seq<char>,
    pub body: JsonView,
    pub keys: Seq<Seq<char>>,
}

impl View for EmbedCall {
    type V = EmbedView;

    open spec fn view(&self) -> EmbedView {
        EmbedView { url: self.url@, body: self.body@, keys: strings(self.keys@) }
    }
}

/// The request for the vectors of texts; none where there are no texts.
pub open spec fn embed_call(provider: ModelProvider, model: Seq<char>, inputs: Seq<Seq<char>>) -> Result<
    Option<EmbedView>,
    Seq<char>,
> {
    let keys = usable_keys(strings(provider.api_keys@));
    if inputs.len() == 0 {
        Ok(None)
    } else if is_blank_text(model) {
        Err("Embedding model is not set"@)
    } else if keys.len() == 0 {
        Err("Provider '"@ + provider.name@ + "' has no API key"@)
    } else {
        Ok(
            Some(
                EmbedView {
                    url: without_slashes(provider.base_url@) + "/embeddings"@,
                    body: object2(
                        "model"@,
                        str_json(model),
                        "input"@,
                        JsonView::Array(text_items(inputs)),
                    ),
                    keys,
                },
            ),
        )
    }
}

/// The request for the vectors of texts; none where there are no texts.
pub fn embed_batch(provider: &ModelProvider, model: &str, inputs: &Vec<String>) -> (r: Result<
    Option<EmbedCall>,
    String,
>)
    ensures
        match r {
            Ok(Some(call)) => embed_call(*provider, model@, strings(inputs@)) == Ok::<
                Option<EmbedView>,
                Seq<char>,
            >(Some(call@)),
            Ok(None) => embed_call(*provider, model@, strings(inputs@)) == Ok::<
                Option<EmbedView>,
                Seq<char>,
            >(None),
            Err(e) => embed_call(*provider, model@, strings(inputs@)) == Err::<
                Option<EmbedView>,
                Seq<char>,
            >(e@),
        },
{
    assert(strings(inputs@).len() == inputs@.len());
    if inputs.len() == 0 {
        return Ok(None);
    }
    if is_blank(model) {
        return Err(copy_str("Embedding model is not set"));
    }
    let keys = copy_usable_keys(&provider.api_keys);
    assert(strings(keys@).len() == keys@.len());
    if keys.len() == 0 {
        return Err(concat3("Provider '", provider.name.as_str(), "' has no API key"));
    }
    let base = trim_slashes(provider.base_url.as_str());
    let url = concat2(base.as_str(), "/embeddings");
    let body = make_object2(
        "model",
        Json::string(model),
        "input",
        Json::Array(make_text_items(inputs)),
    );
    Ok(Some(EmbedCall { url, body, keys }))
}

// ---------------------------------------------------------------------
// Replies
// ---------------------------------------------------------------------

/// A vector of a reply with the place that it is for.
#[verifier::ext_equal]
pub struct RowView {
    pub index: u64,
    pub vector: Seq<JsonView>,
}

#[derive(Debug)]
struct Row {
    index: u64,
    vector: Vec<Json>,
}

impl View for Row {
    type V = RowView;

    closed spec fn view(&self) -> RowView {
        RowView { index: self.index, vector: items_view(self.vector@) }
    }
}

spec fn row_views(v: Seq<Row>) -> Seq<RowView> {
    Seq::new(v.len(), |i: int| v[i]@)
}

/// The rows with one more behind those whose place is not later.
pub open spec fn row_placed(rows: Seq<RowView>, x: RowView) -> Seq<RowView>
    decreases rows.len(),
{
    if rows.len() == 0 || rows.last().index <= x.index {
        rows.push(x)
    } else {
        row_placed(rows.drop_last(), x).push(rows.last())
    }
}

/// One row of a reply; place 0 where it names none.
pub open spec fn row_of(item: JsonView) -> Option<RowView> {
    match item.field_items("embedding"@) {
        Some(vector) => Some(
            RowView {
                index: match item.field_unsigned("index"@) {
                    Some(i) => i,
                    None => 0,
                },
                vector,
            },
        ),
        None => None,
    }
}

/// The rows of a reply in the order of their places; none where one of them has
/// no vector.
pub open spec fn rows_of(data: Seq<JsonView>) -> Option<Seq<RowView>>
    decreases data.len(),
{
    if data.len() == 0 {
        Some(Seq::empty())
    } else {
        match rows_of(data.drop_last()) {
            None => None,
            Some(rows) => match row_of(data.last()) {
                None => None,
                Some(row) => Some(row_placed(rows, row)),
            },
        }
    }
}

/// The vectors of the rows.
pub open spec fn row_vectors(rows: Seq<RowView>) -> Seq<Seq<JsonView>> {
    Seq::new(rows.len(), |i: int| rows[i].vector)
}

/// The vectors of a reply, in the order of their places.
pub open spec fn embeddings_of(value: JsonView) -> Result<Seq<Seq<JsonView>>, Seq<char>> {
    match value.field_items("data"@) {
        None => Err(
            "embeddings API error: "@ + match value.path("error"@, "message"@) {
                Some(m) => match m.text() {
                    Some(t) => t,
                    None => "missing `data` array"@,
                },
                None => "missing `data` array"@,
            },
        ),
        Some(data) => match rows_of(data) {
            None => Err("embeddings: item missing `embedding`"@),
            Some(rows) => Ok(row_vectors(rows)),
        },
    }
}

/// The vectors as values.
pub open spec fn vector_views(v: Seq<Vec<Json>>) -> Seq<Seq<JsonView>> {
    Seq::new(v.len(), |i: int| items_view(v[i]@))
}

/// Vectors or an error, as values.
pub open spec fn vectors_result(r: Result<Vec<Vec<Json>>, String>) -> Result<
    Seq<Seq<JsonView>>,
    Seq<char>,
> {
    match r {
        Ok(v) => Ok(vector_views(v@)),
        Err(e) => Err(e@),
    }
}

fn place_row(rows: &mut Vec<Row>, x: Row)
    ensures
        row_views(final(rows)@) == row_placed(row_views(old(rows)@), x@),
{
    let ghost all = row_views(rows@);
    let mut i: usize = rows.len();
    assert(all.take(all.len() as int) =~= all);
    assert(row_placed(all, x@) + all.skip(all.len() as int) =~= row_placed(all, x@));
    while i > 0 && rows[i - 1].index > x.index
        invariant
            i <= rows@.len(),
            rows@ == old(rows)@,
            all == row_views(rows@),
            row_placed(all, x@) == row_placed(all.take(i as int), x@) + all.skip(i as int),
        decreases i,
    {
        proof {
            assert(all[i - 1] == rows@[i - 1]@);
            assert(all.take(i as int).drop_last() =~= all.take(i - 1));
            assert(row_placed(all.take(i - 1), x@).push(all[i - 1]) + all.skip(i as int)
                =~= row_placed(all.take(i - 1), x@) + all.skip(i - 1));
        }
        i -= 1;
    }
    proof {
        if i > 0 {
            assert(all[i - 1] == rows@[i - 1]@);
            assert(all.take(i as int).last() == all[i - 1]);
        }
        assert(row_placed(all.take(i as int), x@) == all.take(i as int).push(x@));
    }
    rows.insert(i, x);
    assert(row_views(rows@) =~= all.take(i as int).push(x@) + all.skip(i as int));
}

proof fn lemma_rows_stay(data: Seq<JsonView>, n: int)
    requires
        0 <= n <= data.len(),
        rows_of(data.take(n)) is None,
    ensures
        rows_of(data) is None,
    decreases data.len() - n,
{
    if n == data.len() {
        assert(data.take(n) =~= data);
    } else {
        assert(data.take(n + 1).drop_last() =~= data.take(n));
        lemma_rows_stay(data, n + 1);
    }
}

/// The vectors of a reply, in the order of their places. Their components are
/// values that are mostly numbers.
pub fn parse_embeddings_response(value: &Json) -> (r: Result<Vec<Vec<Json>>, String>)
    ensures
        vectors_result(r) == embeddings_of(value@),
{
    let data = match value.get_array("data") {
        Some(d) => d,
        None => {
            let msg = match value.get_path("error", "message") {
                Some(m) => match m.as_str() {
                    Some(t) => t,
                    None => "missing `data` array",
                },
                None => "missing `data` array",
            };
            return Err(concat2("embeddings API error: ", msg));
        },
    };
    let ghost all = items_view(data@);
    let mut rows: Vec<Row> = Vec::new();
    let mut i: usize = 0;
    assert(all.len() == data@.len());
    assert(all.take(0) =~= Seq::<JsonView>::empty());
    assert(row_views(rows@) =~= Seq::<RowView>::empty());
    while i < data.len()
        invariant
            i <= data@.len(),
            all == items_view(data@),
            all.len() == data@.len(),
            value@.field_items("data"@) == Some(all),
            rows_of(all.take(i as int)) == Some(row_views(rows@)),
        decreases data@.len() - i,
    {
        let item = &data[i];
        assert(all.take(i + 1).drop_last() =~= all.take(i as int));
        assert(all.take(i + 1).last() == item@);
        let index: u64 = match item.get_u64("index") {
            Some(k) => k,
            None => 0,
        };
        match item.get_array("embedding") {
            Some(vector) => {
                let row = Row { index, vector: copy_items(vector) };
                place_row(&mut rows, row);
            },
            None => {
                proof {
                    lemma_rows_stay(all, i + 1);
                }
                return Err(copy_str("embeddings: item missing `embedding`"));
            },
        }
        i += 1;
    }
    assert(all.take(all.len() as int) =~= all);
    let ghost sorted = row_views(rows@);
    let mut out: Vec<Vec<Json>> = Vec::new();
    let mut k: usize = 0;
    while k < rows.len()
        invariant
            k <= rows@.len(),
            sorted == row_views(rows@),
            out@.len() == k,
            forall|j: int| 0 <= j < k ==> items_view((#[trigger] out@[j])@) == sorted[j].vector,
        decreases rows@.len() - k,
    {
        assert(sorted[k as int] == rows@[k as int]@);
        out.push(copy_items(&rows[k].vector));
        k += 1;
    }
    assert(vector_views(out@) =~= row_vectors(sorted));
    Ok(out)
}

/// The rows of a reply are in the order of their places, and none is lost.
pub proof fn law_rows_are_in_order(data: Seq<JsonView>)
    ensures
        rows_of(data) matches Some(rows) ==> {
            &&& rows.len() == data.len()
            &&& forall|i: int, j: int| 0 <= i <= j < rows.len() ==> rows[i].index <= rows[j].index
        },
    decreases data.len(),
{
    if data.len() > 0 {
        law_rows_are_in_order(data.drop_last());
        if let Some(rows) = rows_of(data.drop_last()) {
            if let Some(row) = row_of(data.last()) {
                lemma_row_placed(rows, row);
            }
        }
    }
}

proof fn lemma_row_placed(rows: Seq<RowView>, x: RowView)
    requires
        forall|i: int, j: int| 0 <= i <= j < rows.len() ==> rows[i].index <= rows[j].index,
    ensures
        row_placed(rows, x).len() == rows.len() + 1,
        forall|i: int, j: int|
            0 <= i <= j < row_placed(rows, x).len() ==> row_placed(rows, x)[i].index <= row_placed(
                rows,
                x,
            )[j].index,
        forall|i: int|
            0 <= i < row_placed(rows, x).len() ==> (#[trigger] row_placed(rows, x)[i]).index
                <= x.index || (rows.len() > 0 && row_placed(rows, x)[i].index <= rows.last().index),
    decreases rows.len(),
{
    if rows.len() == 0 || rows.last().index <= x.index {
    } else {
        let start = rows.drop_last();
        lemma_row_placed(start, x);
        let p = row_placed(start, x);
        assert forall|i: int| 0 <= i < p.len() implies (#[trigger] p[i]).index
            <= rows.last().index by {
            if start.len() > 0 {
                assert(start.last() == rows[rows.len() - 2]);
            }
        }
    }
}

/// The vectors of a reply to a request for the vectors of `expected` texts.
pub open spec fn batch_of(value: JsonView, expected: nat) -> Result<Seq<Seq<JsonView>>, Seq<char>> {
    match embeddings_of(value) {
        Err(e) => Err(e),
        Ok(v) => if v.len() != expected {
            Err(
                "embeddings count mismatch: got "@ + decimal(v.len()) + ", expected "@ + decimal(
                    expected,
                ),
            )
        } else {
            Ok(v)
        },
    }
}

/// The vectors of a reply to a request for the vectors of `expected` texts.
pub fn embeddings_from_reply(value: &Json, expected: usize) -> (r: Result<Vec<Vec<Json>>, String>)
    ensures
        vectors_result(r) == batch_of(value@, expected as nat),
{
    match parse_embeddings_response(value) {
        Err(e) => Err(e),
        Ok(v) => {
            assert(vector_views(v@).len() == v@.len());
            if v.len() != expected {
                let got = decimal_of(v.len() as u64);
                let wanted = decimal_of(expected as u64);
                Err(
                    concat4(
                        "embeddings count mismatch: got ",
                        got.as_str(),
                        ", expected ",
                        wanted.as_str(),
                    ),
                )
            } else {
                Ok(v)
            }
        },
    }
}

/// The vector of a query: the last of those that came.
pub fn embed_query(vectors: Vec<Vec<Json>>) -> (r: Result<Vec<Json>, String>)
    ensures
        match r {
            Ok(v) => vectors@.len() > 0 && v@ == vectors@.last()@,
            Err(e) => vectors@.len() == 0 && e@ == "embeddings: empty result for query"@,
        },
{
    let mut vectors = vectors;
    match vectors.pop() {
        Some(v) => Ok(v),
        None => Err(copy_str("embeddings: empty result for query")),
    }
}

/// The usable keys are those among the first keys, and then those among the rest.
pub proof fn law_usable_keys_stay_in_order(a: Seq<Seq<char>>, b: Seq<Seq<char>>)
    ensures
        usable_keys(a + b) == usable_keys(a) + usable_keys(b),
    decreases b.len(),
{
    if b.len() == 0 {
        assert(a + b =~= a);
        assert(usable_keys(a) + usable_keys(b) =~= usable_keys(a));
    } else {
        law_usable_keys_stay_in_order(a, b.drop_last());
        assert((a + b).drop_last() =~= a + b.drop_last());
        assert((a + b).last() == b.last());
        assert(usable_keys(a + b) =~= usable_keys(a) + usable_keys(b));
    }
}

/// A key is usable where it is not blank.
pub proof fn law_a_key_is_usable(key: Seq<char>)
    ensures
        usable_keys(seq![key]) == if is_blank_text(key) {
            Seq::<Seq<char>>::empty()
        } else {
            seq![key]
        },
{
    reveal_with_fuel(usable_keys, 2);
    assert(seq![key].drop_last() =~= Seq::<Seq<char>>::empty());
    assert(seq![key].last() == key);
    assert(usable_keys(seq![key]) =~= if is_blank_text(key) {
        Seq::<Seq<char>>::empty()
    } else {
        seq![key]
    });
}

/// A call for vectors sends every text, in order, to the model, with the usable keys;
/// nothing is sent for no texts, and nothing without a model or a key.
pub proof fn law_every_text_is_sent(
    provider: ModelProvider,
    model: Seq<char>,
    inputs: Seq<Seq<char>>,
)
    ensures
        inputs.len() == 0 ==> embed_call(provider, model, inputs) == Ok::<
            Option<EmbedView>,
            Seq<char>,
        >(None),
        inputs.len() > 0 ==> (embed_call(provider, model, inputs) is Ok <==> !is_blank_text(model)
            && usable_keys(strings(provider.api_keys@)).len() > 0),
        inputs.len() > 0 && embed_call(provider, model, inputs) is Ok ==> ({
            let call = embed_call(provider, model, inputs)->Ok_0;
            &&& call is Some
            &&& (call->0).url == without_slashes(provider.base_url@) + "/embeddings"@
            &&& (call->0).keys == usable_keys(strings(provider.api_keys@))
            &&& (call->0).body.field_text("model"@) == Some(model)
            &&& (call->0).body.field_items("input"@) is Some
            &&& ((call->0).body.field_items("input"@)->0).len() == inputs.len()
            &&& forall|i: int|
                0 <= i < inputs.len() ==> (#[trigger] ((call->0).body.field_items(
                    "input"@,
                )->0)[i]).text() == Some(inputs[i])
        }),
{
    reveal_strlit("model");
    reveal_strlit("input");
    assert("model"@[0] == 'm');
    assert("input"@[0] == 'i');
}

proof fn lemma_row_placed_multiset(rows: Seq<RowView>, x: RowView)
    ensures
        row_placed(rows, x).to_multiset() == rows.to_multiset().insert(x),
    decreases rows.len(),
{
    broadcast use vstd::seq_lib::group_to_multiset_ensures;

    if rows.len() == 0 || rows.last().index <= x.index {
    } else {
        lemma_row_placed_multiset(rows.drop_last(), x);
        assert(rows.drop_last().push(rows.last()) =~= rows);
        assert(row_placed(rows, x).to_multiset() =~= rows.to_multiset().insert(x));
    }
}

/// Rows that come in the order of their places are the vectors of the reply, one by one;
/// a reply with an item that has no vector is an error.
pub proof fn law_vectors_are_those_of_the_reply(data: Seq<JsonView>)
    requires
        forall|i: int| 0 <= i < data.len() ==> (#[trigger] data[i]).field_items("embedding"@)
            is Some,
        forall|i: int, j: int|
            0 <= i <= j < data.len() ==> row_place(#[trigger] data[i]) <= row_place(
                #[trigger] data[j],
            ),
    ensures
        rows_of(data) is Some,
        (rows_of(data)->0).len() == data.len(),
        forall|i: int|
            0 <= i < data.len() ==> (#[trigger] (rows_of(data)->0)[i]).vector == data[i].field_items(
                "embedding"@,
            )->0 && (rows_of(data)->0)[i].index == row_place(data[i]),
    decreases data.len(),
{
    if data.len() > 0 {
        let front = data.drop_last();
        assert forall|i: int| 0 <= i < front.len() implies (#[trigger] front[i]).field_items(
            "embedding"@,
        ) is Some by {
            assert(front[i] == data[i]);
        }
        assert forall|i: int, j: int| 0 <= i <= j < front.len() implies row_place(
            #[trigger] front[i],
        ) <= row_place(#[trigger] front[j]) by {
            assert(front[i] == data[i]);
            assert(front[j] == data[j]);
        }
        law_vectors_are_those_of_the_reply(front);
        let rows = rows_of(front)->0;
        let last = data.last();
        assert(data[data.len() - 1] == last);
        let row = row_of(last)->0;
        if rows.len() > 0 {
            assert(front[rows.len() - 1] == data[rows.len() - 1]);
            assert(rows[rows.len() - 1].index == row_place(front[rows.len() - 1]));
            assert(row_place(data[data.len() - 2]) <= row_place(data[data.len() - 1]));
        }
        assert(row_placed(rows, row) == rows.push(row));
        let all = rows_of(data)->0;
        assert forall|i: int| 0 <= i < data.len() implies (#[trigger] all[i]).vector
            == data[i].field_items("embedding"@)->0 && all[i].index == row_place(data[i]) by {
            if i < front.len() {
                assert(all[i] == rows[i]);
                assert(front[i] == data[i]);
            }
        }
    }
}

/// The place that an item of a reply gives; the first where it gives none.
pub open spec fn row_place(item: JsonView) -> u64 {
    match item.field_unsigned("index"@) {
        Some(i) => i,
        None => 0,
    }
}

/// The rows that items hold, as they come.
pub open spec fn rows_as_they_come(data: Seq<JsonView>) -> Seq<RowView> {
    Seq::new(
        data.len(),
        |i: int|
            RowView { index: row_place(data[i]), vector: data[i].field_items("embedding"@)->0 },
    )
}

/// Whatever order the items of a reply come in, the rows are those of the items, none
/// lost and none twice.
pub proof fn law_no_vector_is_lost(data: Seq<JsonView>)
    ensures
        rows_of(data) is Some <==> forall|i: int|
            0 <= i < data.len() ==> (#[trigger] data[i]).field_items("embedding"@) is Some,
        rows_of(data) is Some ==> (rows_of(data)->0).to_multiset() == rows_as_they_come(
            data,
        ).to_multiset(),
    decreases data.len(),
{
    broadcast use vstd::seq_lib::group_to_multiset_ensures;

    if data.len() > 0 {
        let front = data.drop_last();
        law_no_vector_is_lost(front);
        let n = data.len() - 1;
        assert(data[n] == data.last());
        if rows_of(front) is Some {
            if row_of(data.last()) is Some {
                let rows = rows_of(front)->0;
                let row = row_of(data.last())->0;
                lemma_row_placed_multiset(rows, row);
                assert(rows_as_they_come(data) =~= rows_as_they_come(front).push(row));
                assert forall|i: int| 0 <= i < data.len() implies (
                #[trigger] data[i]).field_items("embedding"@) is Some by {
                    if i < n {
                        assert(front[i] == data[i]);
                    }
                }
            } else {
                assert(data[n].field_items("embedding"@) is None);
            }
        } else {
            let i = choose|i: int|
                0 <= i < front.len() && (#[trigger] front[i]).field_items("embedding"@) is None;
            assert(data[i] == front[i]);
        }
    } else {
        assert(rows_as_they_come(data) =~= Seq::<RowView>::empty());
    }
}

/// A batch is taken where the reply holds as many vectors as texts were sent.
pub proof fn law_batches_are_counted(value: JsonView, expected: nat)
    ensures
        embeddings_of(value) is Err ==> batch_of(value, expected) is Err,
        embeddings_of(value) is Ok ==> (batch_of(value, expected) is Ok <==> (embeddings_of(
            value,
        )->Ok_0).len() == expected),
        batch_of(value, expected) is Ok ==> batch_of(value, expected) == embeddings_of(value),
        value.field_items("data"@) is None ==> embeddings_of(value) is Err,
        value.field_items("data"@) is Some ==> (embeddings_of(value) is Ok <==> rows_of(
            value.field_items("data"@)->0,
        ) is Some),
        embeddings_of(value) is Ok ==> ({
            let rows = rows_of(value.field_items("data"@)->0)->0;
            let v = embeddings_of(value)->Ok_0;
            v.len() == rows.len() && forall|i: int|
                0 <= i < v.len() ==> (#[trigger] v[i]) == rows[i].vector
        }),
{
}

} // verus!
