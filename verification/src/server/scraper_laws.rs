//! What a search owes to every row of a page and every item of an interface.
use vstd::prelude::*;

use crate::outside::pages::{cells_in, element_in, rows_in, ElementView};
use crate::outside::patterns::{regex_group, regex_replaced, PAGE_PATTERN};
use crate::outside::urls::encoded_text;
use crate::server::scraper::{
    address_of, all_page_results, as_text, asked_providers, cell_text, column_results, columns_of, detail_at,
    detail_text, either_at, follow_up_of, interface_result, interface_results,
    magnet_of, mapped, names_provider, page_magnet, page_result, part_text, row_fields, with_default, with_magnet,
    FieldView, Fields, RuleView,
};
use crate::text::{contains, join, replace, trim, trim_both, CharClass};
use crate::textmap::{distinct_names, law_with_value, value_at, with_value};

verus! {

/// The numbers below `n` of which something holds, in their order.
pub open spec fn numbers_below(n: nat, holds: spec_fn(int) -> bool) -> Seq<int> {
    Seq::new(n, |i: int| i).filter(holds)
}

proof fn lemma_numbers_below(n: nat, holds: spec_fn(int) -> bool)
    requires
        n > 0,
    ensures
        numbers_below(n, holds) == (if holds(n - 1) {
            numbers_below((n - 1) as nat, holds).push(n - 1)
        } else {
            numbers_below((n - 1) as nat, holds)
        }),
{
    reveal(Seq::filter);
    let all = Seq::new(n, |i: int| i);
    assert(all.drop_last() =~= Seq::new((n - 1) as nat, |i: int| i));
    assert(all.last() == n - 1);
}

proof fn lemma_numbers_hold(n: nat, holds: spec_fn(int) -> bool)
    ensures
        forall|k: int|
            0 <= k < numbers_below(n, holds).len() ==> 0 <= #[trigger] numbers_below(n, holds)[k] < n
                && holds(numbers_below(n, holds)[k]),
    decreases n,
{
    reveal(Seq::filter);
    if n > 0 {
        lemma_numbers_hold((n - 1) as nat, holds);
        lemma_numbers_below(n, holds);
        let front = numbers_below((n - 1) as nat, holds);
        let all = numbers_below(n, holds);
        assert forall|k: int| 0 <= k < all.len() implies 0 <= #[trigger] all[k] < n && holds(
            all[k],
        ) by {
            if k < front.len() {
                assert(all[k] == front[k]);
            }
        }
    }
}

/// Whether some rule takes something of the row at `i` of a page.
pub open spec fn row_has_cell(
    page: Seq<char>,
    list: Seq<char>,
    rules: Seq<RuleView>,
    i: int,
) -> bool {
    exists|r: int| 0 <= r < rules.len() && cell_text(page, list, #[trigger] rules[r], i) is Some
}

/// Whether the rule at `r` is the last of those with its key that take something of the row at
/// `i` of a page.
pub open spec fn is_last_cell(
    page: Seq<char>,
    list: Seq<char>,
    rules: Seq<RuleView>,
    i: int,
    r: int,
) -> bool {
    &&& 0 <= r < rules.len()
    &&& cell_text(page, list, rules[r], i) is Some
    &&& forall|q: int|
        r < q < rules.len() && (#[trigger] rules[q]).key == rules[r].key ==> cell_text(
            page,
            list,
            rules[q],
            i,
        ) is None
}

proof fn lemma_row(page: Seq<char>, list: Seq<char>, rules: Seq<RuleView>, n: nat, i: int)
    requires
        0 <= i < n,
    ensures
        distinct_names(row_fields(columns_of(page, list, rules, n), i)),
        row_fields(columns_of(page, list, rules, n), i).len() > 0 <==> row_has_cell(
            page,
            list,
            rules,
            i,
        ),
        forall|r: int| #[trigger]
            is_last_cell(page, list, rules, i, r) ==> value_at(
                row_fields(columns_of(page, list, rules, n), i),
                rules[r].key,
            ) == Some(FieldView::Text(cell_text(page, list, rules[r], i).unwrap())),
        forall|key: Seq<char>|
            (forall|r: int|
                0 <= r < rules.len() && (#[trigger] rules[r]).key == key ==> cell_text(
                    page,
                    list,
                    rules[r],
                    i,
                ) is None) ==> #[trigger] value_at(
                row_fields(columns_of(page, list, rules, n), i),
                key,
            ) is None,
    decreases rules.len(),
{
    let columns = columns_of(page, list, rules, n);
    let fields = row_fields(columns, i);
    if rules.len() > 0 {
        let front = rules.drop_last();
        let last = rules.last();
        let before = row_fields(columns_of(page, list, front, n), i);
        lemma_row(page, list, front, n, i);
        assert(columns.drop_last() =~= columns_of(page, list, front, n));
        let cell = cell_text(page, list, last, i);
        assert(columns.last().0 == last.key);
        assert(columns.last().1[i] == cell);
        if let Some(text) = cell {
            law_with_value(before, last.key, FieldView::Text(text));
            lemma_with_value_len(before, last.key, FieldView::Text(text));
        }
        assert(row_has_cell(page, list, rules, i) <==> row_has_cell(page, list, front, i)
            || cell is Some) by {
            if row_has_cell(page, list, rules, i) {
                let r = choose|r: int|
                    0 <= r < rules.len() && cell_text(page, list, #[trigger] rules[r], i) is Some;
                if r < front.len() {
                    assert(front[r] == rules[r]);
                }
            }
            if row_has_cell(page, list, front, i) {
                let r = choose|r: int|
                    0 <= r < front.len() && cell_text(page, list, #[trigger] front[r], i) is Some;
                assert(rules[r] == front[r]);
            }
            assert(rules[rules.len() - 1] == last);
        }
        assert forall|r: int| #[trigger] is_last_cell(page, list, rules, i, r) implies value_at(
            fields,
            rules[r].key,
        ) == Some(FieldView::Text(cell_text(page, list, rules[r], i).unwrap())) by {
            if r < front.len() {
                assert(front[r] == rules[r]);
                assert forall|q: int|
                    r < q < front.len() && (#[trigger] front[q]).key == front[r].key implies cell_text(
                    page,
                    list,
                    front[q],
                    i,
                ) is None by {
                    assert(rules[q] == front[q]);
                }
                assert(is_last_cell(page, list, front, i, r));
                assert(rules[rules.len() - 1] == last);
            }
        }
        assert forall|key: Seq<char>|
            (forall|r: int|
                0 <= r < rules.len() && (#[trigger] rules[r]).key == key ==> cell_text(
                    page,
                    list,
                    rules[r],
                    i,
                ) is None) implies #[trigger] value_at(fields, key) is None by {
            assert forall|r: int| 0 <= r < front.len() && (#[trigger] front[r]).key == key implies
                cell_text(page, list, front[r], i) is None by {
                assert(rules[r] == front[r]);
            }
            assert(value_at(before, key) is None);
            assert(rules[rules.len() - 1] == last);
        }
    } else {
        assert(columns =~= Seq::empty());
    }
}

proof fn lemma_with_value_len<V>(map: Seq<(Seq<char>, V)>, name: Seq<char>, value: V)
    ensures
        with_value(map, name, value).len() > 0,
        map.len() <= with_value(map, name, value).len(),
    decreases map.len(),
{
    if map.len() > 0 {
        lemma_with_value_len(map.skip(1), name, value);
    }
}

proof fn lemma_column_results(
    page: Seq<char>,
    list: Seq<char>,
    rules: Seq<RuleView>,
    provider: Seq<char>,
    total: nat,
    n: nat,
)
    requires
        n <= total,
    ensures
        ({
            let columns = columns_of(page, list, rules, total);
            let rows = numbers_below(n, |i: int| row_has_cell(page, list, rules, i));
            let results = column_results(columns, provider, n);
            &&& results.len() == rows.len()
            &&& forall|k: int|
                0 <= k < rows.len() ==> #[trigger] results[k] == page_result(
                    row_fields(columns, rows[k]),
                    provider,
                )
        }),
    decreases n,
{
    reveal(Seq::filter);
    let columns = columns_of(page, list, rules, total);
    let holds = |i: int| row_has_cell(page, list, rules, i);
    if n > 0 {
        lemma_column_results(page, list, rules, provider, total, (n - 1) as nat);
        lemma_numbers_below(n, holds);
        lemma_row(page, list, rules, total, n - 1);
        let front = column_results(columns, provider, (n - 1) as nat);
        let results = column_results(columns, provider, n);
        let before = numbers_below((n - 1) as nat, holds);
        let rows = numbers_below(n, holds);
        assert forall|k: int| 0 <= k < rows.len() implies #[trigger] results[k] == page_result(
            row_fields(columns, rows[k]),
            provider,
        ) by {
            if k < before.len() {
                assert(results[k] == front[k]);
                assert(rows[k] == before[k]);
            }
        }
    } else {
        assert(Seq::new(0, |i: int| i).filter(holds).len() == 0);
    }
}

/// What a finished result of a page holds under a name: the provider under its name; else what
/// was found; else a 0 for peers and seeds, and for the magnet link that of the hash that was
/// found, or nothing.
pub open spec fn finished_value(
    fields: Fields,
    provider: Seq<char>,
    name: Seq<char>,
) -> Option<FieldView> {
    if name == "provider"@ {
        Some(FieldView::Text(provider))
    } else if value_at(fields, name) is Some {
        value_at(fields, name)
    } else if name == "peers"@ || name == "seeds"@ {
        Some(FieldView::Text("0"@))
    } else if name == "magnet"@ {
        let hash = if value_at(fields, "infohash"@) is Some {
            value_at(fields, "infohash"@)
        } else {
            value_at(fields, "info_hash"@)
        };
        match hash {
            Some(FieldView::Text(text)) => Some(
                FieldView::Text("magnet:?xt=urn:btih:"@ + text),
            ),
            _ => Some(FieldView::Text(""@)),
        }
    } else {
        None
    }
}

/// What a finished result of a page holds, and that of an interface, which has no numbers of
/// peers and seeds of its own.
pub proof fn law_finished_result(fields: Fields, provider: Seq<char>, name: Seq<char>)
    requires
        distinct_names(fields),
    ensures
        value_at(page_result(fields, provider), name) == finished_value(fields, provider, name),
        value_at(interface_result(fields, provider), name) == (if (name == "peers"@ || name
            == "seeds"@) && value_at(fields, name) is None {
            None
        } else {
            finished_value(fields, provider, name)
        }),
{
    reveal_strlit("magnet");
    reveal_strlit("provider");
    reveal_strlit("peers");
    reveal_strlit("seeds");
    assert("magnet"@.len() == 6 && "provider"@.len() == 8);
    assert("peers"@[0] == 'p' && "seeds"@[0] == 's');
    let magnet = match as_text(either_at(fields, "infohash"@, "info_hash"@)) {
        Some(hash) => FieldView::Text(magnet_of(hash)),
        None => FieldView::Text(""@),
    };
    law_with_value(fields, "magnet"@, magnet);
    let a = with_magnet(fields);
    law_with_value(a, "provider"@, FieldView::Text(provider));
    law_with_value(a, "peers"@, FieldView::Text("0"@));
    let b = with_default(a, "peers"@, "0"@);
    law_with_value(b, "seeds"@, FieldView::Text("0"@));
    let c = with_default(b, "seeds"@, "0"@);
    law_with_value(c, "provider"@, FieldView::Text(provider));
}

/// A page gives as many results as it has rows of which some rule takes something, however
/// many those are. The results stand in the order of the rows, and each holds under the key of
/// a rule what the last rule with that key takes of its row, but names its provider.
pub proof fn law_every_row_gives_a_result(
    page: Seq<char>,
    list: Seq<char>,
    rules: Seq<RuleView>,
    provider: Seq<char>,
)
    requires
        rows_in(page, list) is Some,
    ensures
        ({
            let results = all_page_results(page, list, rules, provider);
            let rows = numbers_below(
                rows_in(page, list).unwrap().len(),
                |i: int| row_has_cell(page, list, rules, i),
            );
            &&& results.len() == rows.len()
            &&& forall|k: int, r: int|
                #![trigger results[k], rules[r]]
                0 <= k < results.len() && is_last_cell(page, list, rules, rows[k], r)
                    && rules[r].key != "provider"@ ==> value_at(results[k], rules[r].key) == Some(
                    FieldView::Text(cell_text(page, list, rules[r], rows[k]).unwrap()),
                )
            &&& forall|k: int|
                0 <= k < results.len() ==> value_at(#[trigger] results[k], "provider"@) == Some(
                    FieldView::Text(provider),
                )
        }),
{
    let n = rows_in(page, list).unwrap().len();
    let holds = |i: int| row_has_cell(page, list, rules, i);
    let rows = numbers_below(n, holds);
    let columns = columns_of(page, list, rules, n);
    let results = all_page_results(page, list, rules, provider);
    lemma_column_results(page, list, rules, provider, n, n);
    lemma_numbers_hold(n, holds);
    assert forall|k: int, r: int|
        #![trigger results[k], rules[r]]
        0 <= k < results.len() && is_last_cell(page, list, rules, rows[k], r) && rules[r].key
            != "provider"@ implies value_at(results[k], rules[r].key) == Some(
        FieldView::Text(cell_text(page, list, rules[r], rows[k]).unwrap()),
    ) by {
        lemma_row(page, list, rules, n, rows[k]);
        law_finished_result(row_fields(columns, rows[k]), provider, rules[r].key);
    }
    assert forall|k: int| 0 <= k < results.len() implies value_at(
        #[trigger] results[k],
        "provider"@,
    ) == Some(FieldView::Text(provider)) by {
        lemma_row(page, list, rules, n, rows[k]);
        law_finished_result(row_fields(columns, rows[k]), provider, "provider"@);
    }
}

/// A result holds nothing of its row under a name for which no rule takes anything of it: only
/// its provider, numbers of peers and seeds, and a magnet link are put in by default.
pub proof fn law_result_holds_nothing_else(
    page: Seq<char>,
    list: Seq<char>,
    rules: Seq<RuleView>,
    provider: Seq<char>,
    k: int,
    name: Seq<char>,
)
    requires
        rows_in(page, list) is Some,
        0 <= k < all_page_results(page, list, rules, provider).len(),
        name != "provider"@,
        ({
            let rows = numbers_below(
                rows_in(page, list).unwrap().len(),
                |i: int| row_has_cell(page, list, rules, i),
            );
            forall|r: int|
                0 <= r < rules.len() && (#[trigger] rules[r]).key == name ==> cell_text(
                    page,
                    list,
                    rules[r],
                    rows[k],
                ) is None
        }),
    ensures
        ({
            let found = value_at(all_page_results(page, list, rules, provider)[k], name);
            &&& name == "peers"@ || name == "seeds"@ ==> found == Some(FieldView::Text("0"@))
            &&& name != "peers"@ && name != "seeds"@ && name != "magnet"@ ==> found is None
        }),
{
    let n = rows_in(page, list).unwrap().len();
    let holds = |i: int| row_has_cell(page, list, rules, i);
    let rows = numbers_below(n, holds);
    lemma_column_results(page, list, rules, provider, n, n);
    lemma_numbers_hold(n, holds);
    assert(0 <= rows[k] < n);
    lemma_row(page, list, rules, n, rows[k]);
    let fields = row_fields(columns_of(page, list, rules, n), rows[k]);
    assert(value_at(fields, name) is None);
    law_finished_result(fields, provider, name);
}

/// What a rule takes of an item of an interface: the value under the name that it gives.
pub open spec fn item_value(item: Fields, rule: RuleView) -> Option<FieldView> {
    if rule.text is Some {
        value_at(item, rule.text.unwrap())
    } else {
        None
    }
}

/// Whether some rule takes something of an item.
pub open spec fn item_has_value(item: Fields, rules: Seq<RuleView>) -> bool {
    exists|r: int| 0 <= r < rules.len() && item_value(item, #[trigger] rules[r]) is Some
}

/// Whether the rule at `r` is the last of those with its key that take something of an item.
pub open spec fn is_last_value(item: Fields, rules: Seq<RuleView>, r: int) -> bool {
    &&& 0 <= r < rules.len()
    &&& item_value(item, rules[r]) is Some
    &&& forall|q: int|
        r < q < rules.len() && (#[trigger] rules[q]).key == rules[r].key ==> item_value(
            item,
            rules[q],
        ) is None
}

proof fn lemma_mapped(item: Fields, rules: Seq<RuleView>)
    ensures
        distinct_names(mapped(item, rules)),
        mapped(item, rules).len() > 0 <==> item_has_value(item, rules),
        forall|r: int| #[trigger]
            is_last_value(item, rules, r) ==> value_at(mapped(item, rules), rules[r].key)
                == item_value(item, rules[r]),
        forall|key: Seq<char>|
            (forall|r: int|
                0 <= r < rules.len() && (#[trigger] rules[r]).key == key ==> item_value(
                    item,
                    rules[r],
                ) is None) ==> #[trigger] value_at(mapped(item, rules), key) is None,
    decreases rules.len(),
{
    let fields = mapped(item, rules);
    if rules.len() > 0 {
        let front = rules.drop_last();
        let last = rules.last();
        let before = mapped(item, front);
        lemma_mapped(item, front);
        let found = item_value(item, last);
        if let Some(value) = found {
            law_with_value(before, last.key, value);
            lemma_with_value_len(before, last.key, value);
        }
        assert(fields == (if found is Some {
            with_value(before, last.key, found.unwrap())
        } else {
            before
        }));
        assert(item_has_value(item, rules) <==> item_has_value(item, front) || found is Some) by {
            if item_has_value(item, rules) {
                let r = choose|r: int|
                    0 <= r < rules.len() && item_value(item, #[trigger] rules[r]) is Some;
                if r < front.len() {
                    assert(front[r] == rules[r]);
                }
            }
            if item_has_value(item, front) {
                let r = choose|r: int|
                    0 <= r < front.len() && item_value(item, #[trigger] front[r]) is Some;
                assert(rules[r] == front[r]);
            }
            assert(rules[rules.len() - 1] == last);
        }
        assert forall|r: int| #[trigger] is_last_value(item, rules, r) implies value_at(
            fields,
            rules[r].key,
        ) == item_value(item, rules[r]) by {
            if r < front.len() {
                assert(front[r] == rules[r]);
                assert forall|q: int|
                    r < q < front.len() && (#[trigger] front[q]).key == front[r].key implies item_value(
                    item,
                    front[q],
                ) is None by {
                    assert(rules[q] == front[q]);
                }
                assert(is_last_value(item, front, r));
                assert(rules[rules.len() - 1] == last);
            }
        }
        assert forall|key: Seq<char>|
            (forall|r: int|
                0 <= r < rules.len() && (#[trigger] rules[r]).key == key ==> item_value(
                    item,
                    rules[r],
                ) is None) implies #[trigger] value_at(fields, key) is None by {
            assert forall|r: int| 0 <= r < front.len() && (#[trigger] front[r]).key == key implies
                item_value(item, front[r]) is None by {
                assert(rules[r] == front[r]);
            }
            assert(value_at(before, key) is None);
            assert(rules[rules.len() - 1] == last);
        }
    }
}

/// An interface gives as many results as it has items of which some rule takes something,
/// however many those are. The results stand in the order of the items, and each holds under
/// the key of a rule what the last rule with that key takes of its item, but names its
/// provider.
pub proof fn law_every_item_gives_a_result(
    items: Seq<Fields>,
    rules: Seq<RuleView>,
    provider: Seq<char>,
)
    ensures
        ({
            let results = interface_results(items, rules, provider);
            let chosen = numbers_below(items.len(), |i: int| item_has_value(items[i], rules));
            &&& results.len() == chosen.len()
            &&& forall|k: int, r: int|
                #![trigger results[k], rules[r]]
                0 <= k < results.len() && is_last_value(items[chosen[k]], rules, r) && rules[r].key
                    != "provider"@ ==> value_at(results[k], rules[r].key) == item_value(
                    items[chosen[k]],
                    rules[r],
                )
            &&& forall|k: int|
                0 <= k < results.len() ==> value_at(#[trigger] results[k], "provider"@) == Some(
                    FieldView::Text(provider),
                )
        }),
{
    let holds = |i: int| item_has_value(items[i], rules);
    let results = interface_results(items, rules, provider);
    let chosen = numbers_below(items.len(), holds);
    reveal_strlit("provider");
    reveal_strlit("peers");
    reveal_strlit("seeds");
    assert("provider"@.len() == 8 && "peers"@.len() == 5 && "seeds"@.len() == 5);
    lemma_interface_results(items, rules, provider);
    lemma_numbers_hold(items.len(), holds);
    assert forall|k: int, r: int|
        #![trigger results[k], rules[r]]
        0 <= k < results.len() && is_last_value(items[chosen[k]], rules, r) && rules[r].key
            != "provider"@ implies value_at(results[k], rules[r].key) == item_value(
        items[chosen[k]],
        rules[r],
    ) by {
        lemma_mapped(items[chosen[k]], rules);
        law_finished_result(mapped(items[chosen[k]], rules), provider, rules[r].key);
    }
    assert forall|k: int| 0 <= k < results.len() implies value_at(
        #[trigger] results[k],
        "provider"@,
    ) == Some(FieldView::Text(provider)) by {
        lemma_mapped(items[chosen[k]], rules);
        law_finished_result(mapped(items[chosen[k]], rules), provider, "provider"@);
    }
}

proof fn lemma_same_numbers(n: nat, a: spec_fn(int) -> bool, b: spec_fn(int) -> bool)
    requires
        forall|i: int| 0 <= i < n ==> #[trigger] a(i) == b(i),
    ensures
        numbers_below(n, a) == numbers_below(n, b),
    decreases n,
{
    if n > 0 {
        lemma_same_numbers((n - 1) as nat, a, b);
        lemma_numbers_below(n, a);
        lemma_numbers_below(n, b);
        assert(a(n - 1) == b(n - 1));
    } else {
        reveal(Seq::filter);
        assert(numbers_below(n, a) =~= numbers_below(n, b));
    }
}

proof fn lemma_interface_results(items: Seq<Fields>, rules: Seq<RuleView>, provider: Seq<char>)
    ensures
        ({
            let results = interface_results(items, rules, provider);
            let chosen = numbers_below(items.len(), |i: int| item_has_value(items[i], rules));
            &&& results.len() == chosen.len()
            &&& forall|k: int|
                0 <= k < chosen.len() ==> #[trigger] results[k] == interface_result(
                    mapped(items[chosen[k]], rules),
                    provider,
                )
        }),
    decreases items.len(),
{
    reveal(Seq::filter);
    let holds = |i: int| item_has_value(items[i], rules);
    if items.len() > 0 {
        let front = items.drop_last();
        let held = |i: int| item_has_value(front[i], rules);
        lemma_interface_results(front, rules, provider);
        lemma_mapped(items.last(), rules);
        lemma_numbers_below(items.len(), holds);
        assert forall|i: int| 0 <= i < front.len() implies #[trigger] holds(i) == held(i) by {
            assert(front[i] == items[i]);
        }
        lemma_same_numbers(front.len(), holds, held);
        lemma_numbers_hold(front.len(), held);
        let before = interface_results(front, rules, provider);
        let results = interface_results(items, rules, provider);
        let fewer = numbers_below(front.len(), held);
        let chosen = numbers_below(items.len(), holds);
        assert forall|k: int| 0 <= k < chosen.len() implies #[trigger] results[k]
            == interface_result(mapped(items[chosen[k]], rules), provider) by {
            if k < fewer.len() {
                assert(results[k] == before[k]);
                assert(chosen[k] == fewer[k]);
                assert(front[fewer[k]] == items[chosen[k]]);
            }
        }
    } else {
        assert(Seq::new(0, |i: int| i).filter(holds).len() == 0);
    }
}

/// What a part of a rule takes of an element: with an at sign before it the attribute that it
/// names, which may be missing; without a part, and with one that is no pattern, the text
/// without white space around it.
pub proof fn law_part_of_an_element(element: ElementView, part: Seq<char>)
    ensures
        part_text(element, None) == trim(join(element.0, " "@)),
        "@"@.is_prefix_of(part) ==> (element.1 matches Some(value) ==> part_text(
            element,
            Some(part),
        ) == value),
        "@"@.is_prefix_of(part) && element.1 is None ==> part_text(element, Some(part)) == ""@,
        !"@"@.is_prefix_of(part) && !"/"@.is_prefix_of(part) ==> part_text(element, Some(part))
            == trim(join(element.0, " "@)),
{
}

/// A result is asked for once more exactly if it has no magnet link, but a path and a
/// provider; it is asked for at the pages of that provider, under the address of the result
/// before its path.
pub proof fn law_result_is_followed_up(fields: Fields)
    ensures
        ({
            let path = if value_at(fields, "url"@) is Some {
                value_at(fields, "url"@)
            } else {
                value_at(fields, "path"@)
            };
            let missing = !(value_at(fields, "magnet"@) matches Some(FieldView::Text(m)) && m.len()
                > 0);
            match (path, value_at(fields, "provider"@)) {
                (Some(FieldView::Text(p)), Some(FieldView::Text(name))) => follow_up_of(fields)
                    == (if missing && p.len() > 0 && name.len() > 0 {
                    Some((name + "/item"@, p))
                } else {
                    None
                }),
                _ => follow_up_of(fields) is None,
            }
        }),
{
    reveal_strlit("");
}

/// Whether the rule at `r` is the last of those with its key that find something on the page
/// of a result.
pub open spec fn is_last_detail(page: Seq<char>, rules: Seq<RuleView>, r: int) -> bool {
    &&& 0 <= r < rules.len()
    &&& detail_text(page, rules[r]) is Some
    &&& forall|q: int|
        r < q < rules.len() && (#[trigger] rules[q]).key == rules[r].key ==> detail_text(
            page,
            rules[q],
        ) is None
}

proof fn lemma_detail(page: Seq<char>, rules: Seq<RuleView>, key: Seq<char>)
    ensures
        forall|r: int| #[trigger]
            is_last_detail(page, rules, r) && rules[r].key == key ==> detail_at(page, rules, key)
                == detail_text(page, rules[r]),
        (forall|r: int|
            0 <= r < rules.len() && (#[trigger] rules[r]).key == key ==> detail_text(
                page,
                rules[r],
            ) is None) ==> detail_at(page, rules, key) is None,
    decreases rules.len(),
{
    if rules.len() > 0 {
        let front = rules.drop_last();
        let last = rules[rules.len() - 1];
        lemma_detail(page, front, key);
        assert forall|r: int| #[trigger] is_last_detail(page, rules, r) && rules[r].key
            == key implies detail_at(page, rules, key) == detail_text(page, rules[r]) by {
            if r < front.len() {
                assert(front[r] == rules[r]);
                assert forall|q: int|
                    r < q < front.len() && (#[trigger] front[q]).key
                        == front[r].key implies detail_text(page, front[q]) is None by {
                    assert(rules[q] == front[q]);
                }
                assert(is_last_detail(page, front, r));
                assert(last.key == key ==> detail_text(page, last) is None);
            }
        }
        if forall|r: int|
            0 <= r < rules.len() && (#[trigger] rules[r]).key == key ==> detail_text(
                page,
                rules[r],
            ) is None {
            assert(last.key == key ==> detail_text(page, last) is None);
            assert forall|r: int| 0 <= r < front.len() && (#[trigger] front[r]).key
                == key implies detail_text(page, front[r]) is None by {
                assert(rules[r] == front[r]);
            }
        }
    }
}

/// The magnet link that the page of a result gives is what the last rule for it finds; where
/// none finds one, that of the hash that the last rule for the hash finds; and else there is
/// none.
pub proof fn law_magnet_of_a_page(page: Seq<char>, rules: Seq<RuleView>)
    ensures
        forall|r: int| #[trigger]
            is_last_detail(page, rules, r) && rules[r].key == "magnet"@ ==> page_magnet(page, rules)
                == detail_text(page, rules[r]),
        (forall|r: int|
            0 <= r < rules.len() && (#[trigger] rules[r]).key == "magnet"@ ==> detail_text(
                page,
                rules[r],
            ) is None) ==> {
            &&& forall|r: int| #[trigger]
                is_last_detail(page, rules, r) && rules[r].key == "infohash"@ ==> page_magnet(
                    page,
                    rules,
                ) == Some("magnet:?xt=urn:btih:"@ + detail_text(page, rules[r]).unwrap())
            &&& (forall|r: int|
                0 <= r < rules.len() && (#[trigger] rules[r]).key == "infohash"@ ==> detail_text(
                    page,
                    rules[r],
                ) is None) ==> page_magnet(page, rules) is None
        },
{
    lemma_detail(page, rules, "magnet"@);
    lemma_detail(page, rules, "infohash"@);
}

/// A search asks the provider that was named, where it is configured, and no other; without a
/// name it asks every provider, in their order, but no configuration of the pages of results.
pub proof fn law_providers_are_asked(
    keys: Seq<Seq<char>>,
    provider: Option<Seq<char>>,
    key: Seq<char>,
)
    ensures
        provider matches Some(p) ==> (asked_providers(keys, provider).contains(key) <==> key == p
            && keys.contains(p)) && asked_providers(keys, provider).len() <= 1,
        provider is None ==> (asked_providers(keys, provider).contains(key) <==> keys.contains(key)
            && !contains(key, "/item"@)),
        provider is None && (forall|i: int|
            0 <= i < keys.len() ==> !contains(#[trigger] keys[i], "/item"@)) ==> asked_providers(
            keys,
            provider,
        ) == keys,
{
    match provider {
        Some(p) => {
            if keys.contains(p) {
                assert(asked_providers(keys, provider)[0] == p);
            }
        },
        None => {
            lemma_plain_keys(keys, key);
        },
    }
}

proof fn lemma_plain_keys(keys: Seq<Seq<char>>, key: Seq<char>)
    ensures
        asked_providers(keys, None).contains(key) <==> keys.contains(key) && !contains(
            key,
            "/item"@,
        ),
        (forall|i: int| 0 <= i < keys.len() ==> !contains(#[trigger] keys[i], "/item"@))
            ==> asked_providers(keys, None) == keys,
    decreases keys.len(),
{
    reveal(Seq::filter);
    let all = asked_providers(keys, None);
    if keys.len() > 0 {
        let front = keys.drop_last();
        let fewer = asked_providers(front, None);
        let last = keys[keys.len() - 1];
        lemma_plain_keys(front, key);
        assert(all == (if contains(last, "/item"@) {
            fewer
        } else {
            fewer.push(last)
        }));
        if all.contains(key) {
            let k = choose|k: int| 0 <= k < all.len() && all[k] == key;
            if k < fewer.len() {
                assert(fewer[k] == key);
                let m = choose|m: int| 0 <= m < front.len() && front[m] == key;
                assert(keys[m] == key);
            }
        }
        if keys.contains(key) && !contains(key, "/item"@) {
            let m = choose|m: int| 0 <= m < keys.len() && keys[m] == key;
            if m < front.len() {
                assert(front[m] == key);
                let k = choose|k: int| 0 <= k < fewer.len() && fewer[k] == key;
                assert(all[k] == key);
            } else {
                assert(all[all.len() - 1] == key);
            }
        }
        if forall|i: int| 0 <= i < keys.len() ==> !contains(#[trigger] keys[i], "/item"@) {
            assert forall|i: int| 0 <= i < front.len() implies !contains(
                #[trigger] front[i],
                "/item"@,
            ) by {
                assert(front[i] == keys[i]);
            }
            assert(!contains(keys[keys.len() - 1], "/item"@));
            assert(front.push(last) =~= keys);
        }
    } else {
        assert(all =~= keys);
    }
}

/// A part of a rule that is a pattern between slashes takes what its group matches, nothing
/// where it does not match or the group does not, and the whole text where it is no pattern.
pub proof fn law_pattern_of_an_element(element: ElementView, part: Seq<char>)
    requires
        "/"@.is_prefix_of(part),
    ensures
        ({
            let text = join(element.0, " "@);
            match regex_group(trim_both(part, CharClass::Slash), text) {
                None => part_text(element, Some(part)) == text,
                Some(Some(Some(group))) => part_text(element, Some(part)) == group,
                Some(_) => part_text(element, Some(part)) == ""@,
            }
        }),
{
    reveal_strlit("/");
    reveal_strlit("@");
    assert(part[0] == "/"@[0]);
    if "@"@.is_prefix_of(part) {
        assert(part[0] == "@"@[0]);
    }
}

/// What a rule takes of a row: with a selector what its part takes of the element that was
/// found, if one was; without one what a pattern finds in the text of the row, and nothing
/// where it is no pattern.
pub proof fn law_cell(page: Seq<char>, list: Seq<char>, rule: RuleView, i: int)
    ensures
        rule.selector.len() > 0 ==> ({
            let attribute = if rule.part is Some && "@"@.is_prefix_of(rule.part.unwrap()) {
                rule.part.unwrap().skip(1)
            } else {
                ""@
            };
            match cells_in(page, list, rule.selector, attribute) {
                Some(cells) => match cells[i] {
                    Some(element) => cell_text(page, list, rule, i) == Some(
                        part_text(element, rule.part),
                    ),
                    None => cell_text(page, list, rule, i) is None,
                },
                None => cell_text(page, list, rule, i) is None,
            }
        }),
        rule.selector.len() == 0 ==> (match rule.part {
            Some(part) => if "/"@.is_prefix_of(part) {
                match regex_group(
                    trim_both(part, CharClass::Slash),
                    join(rows_in(page, list).unwrap()[i], " "@),
                ) {
                    Some(Some(Some(group))) => cell_text(page, list, rule, i) == Some(group),
                    Some(Some(None)) => cell_text(page, list, rule, i) == Some(""@),
                    _ => cell_text(page, list, rule, i) is None,
                }
            } else {
                cell_text(page, list, rule, i) is None
            },
            None => cell_text(page, list, rule, i) is None,
        }),
{
}

/// What a rule takes of the page of a result: of the first element that its selector finds
/// the attribute that its part names, with or without an at sign, or nothing of it where that
/// is missing; without a part its text.
pub proof fn law_detail(page: Seq<char>, rule: RuleView)
    ensures
        ({
            let attribute = match rule.part {
                Some(part) => if "@"@.is_prefix_of(part) {
                    part.skip(1)
                } else {
                    part
                },
                None => ""@,
            };
            match element_in(page, rule.selector, attribute) {
                Some(element) => detail_text(page, rule) == Some(
                    if rule.part is None {
                        trim(join(element.0, " "@))
                    } else if element.1 is Some {
                        element.1.unwrap()
                    } else {
                        ""@
                    },
                ),
                None => detail_text(page, rule) is None,
            }
        }),
{
}

/// The address of a search is the template with what is searched for in its place.
pub proof fn law_search_address(template: Seq<char>, query: Seq<char>)
    ensures
        address_of(template, query) == regex_replaced(
            PAGE_PATTERN@,
            replace(template, "{{query}}"@, encoded_text(query)),
            "$1"@,
        ),
{
}

/// Without a name the providers of two lists are asked one list after the other.
pub proof fn law_providers_in_order(a: Seq<Seq<char>>, b: Seq<Seq<char>>)
    ensures
        asked_providers(a + b, None) == asked_providers(a, None) + asked_providers(b, None),
{
    Seq::filter_distributes_over_add(a, b, |k: Seq<char>| names_provider(k));
}

} // verus!
