//! The chart pipeline for one selection: the selected test's rows, sorted
//! fastest first, turned into a bar layout and the matching stack of
//! categorical labels under each bar.

use vstd::prelude::*;

use crate::labels::{extra_tag, name_part, split_label, tag_part, truncated_tag};
use crate::layout::{
    compute_layout, layout_error_spec, layout_matches, AxisLayout, LayoutConfig, LayoutError,
    LayoutOutcome, sorted_desc_values,
};
use crate::report::{
    filter_by_test, matches_test, sort_by_rps_desc, sorted_by_rps, lemma_sort_by_rps_desc,
    TestingResult,
};

verus! {

/// The stack of categorical labels drawn under one bar.
#[derive(Debug)]
pub struct BarLabels {
    pub language: String,
    pub webserver: String,
    pub database: Option<String>,
    pub extra_tag: Option<String>,
}

/// How a label stack renders one benchmark observation: the language as it
/// is, the web-server and database names stripped at their first `[`, and
/// the bracketed remainder of the database label as a truncated extra tag.
pub open spec fn labels_match(l: BarLabels, t: TestingResult) -> bool {
    &&& l.language == t.language
    &&& l.webserver@ == name_part(t.webserver_name@)
    &&& match t.database {
        Some(d) => l.database matches Some(n) && n@ == name_part(d@),
        None => l.database is None,
    }
    &&& match t.database {
        Some(d) => if d@.contains('[') {
            l.extra_tag matches Some(e) && e@ == truncated_tag(tag_part(d@))
        } else {
            l.extra_tag is None
        },
        None => l.extra_tag is None,
    }
}

/// The throughput column of a view.
pub open spec fn rps_of(s: Seq<TestingResult>) -> Seq<u64> {
    s.map_values(|t: TestingResult| t.requests_per_second)
}

/// What the chart draws for one selection: nothing, or a layout with one
/// label stack per bar.
#[derive(Debug)]
pub enum ChartData {
    NoData,
    Chart { layout: AxisLayout, labels: Vec<BarLabels> },
}

/// Builds everything the chart renderer draws for the selected test: the
/// view's rows sorted by descending throughput give the bars, and the label
/// stack of index `i` always describes the bar of index `i`.
///
/// The value bound and the width-sum bound keep every pixel coordinate
/// inside the machine word.
pub fn chart_data(
    results: &Vec<TestingResult>,
    selected_test_name: &str,
    config: &LayoutConfig,
) -> (r: Result<ChartData, LayoutError>)
    requires
        forall|i: int|
            0 <= i < results@.len() ==> (#[trigger] results@[i]).requests_per_second
                < 10_000_000_000_000_000_000,
        results@.len() * (config.max_bar_width + config.max_bar_width / 10) + config.left_margin
            <= u64::MAX,
    ensures
        r is Err <==> !config.wf(),
        match r {
            Result::Ok(ChartData::NoData) => results@.filter(
                matches_test(selected_test_name@),
            ).len() == 0,
            Result::Ok(ChartData::Chart { layout, labels }) => ({
                let view = sort_by_rps_desc(results@.filter(matches_test(selected_test_name@)));
                &&& view.len() > 0
                &&& layout_matches(layout, rps_of(view), *config)
                &&& labels@.len() == view.len()
                &&& forall|i: int|
                    0 <= i < view.len() ==> labels_match(#[trigger] labels@[i], view[i])
            }),
            Result::Err(e) => e == layout_error_spec(*config),
        },
{
    let filtered = filter_by_test(results, selected_test_name);
    proof {
        results@.lemma_filter_len(matches_test(selected_test_name@));
        lemma_sort_by_rps_desc(filtered@);
    }
    let sorted = sorted_by_rps(filtered);
    let ghost view = sort_by_rps_desc(filtered@);
    assert forall|j: int| 0 <= j < sorted@.len() implies (#[trigger] sorted@[j]).requests_per_second
        < 10_000_000_000_000_000_000 by {
        assert(filtered@.contains(sorted@[j]));
        results@.lemma_filter_contains_rev(matches_test(selected_test_name@), sorted@[j]);
        let w = choose|w: int| 0 <= w < results@.len() && results@[w] == sorted@[j];
        assert(results@[w].requests_per_second < 10_000_000_000_000_000_000);
    }
    let n = sorted.len();
    let mut values: Vec<u64> = Vec::new();
    let mut i: usize = 0;
    while i < n
        invariant
            i <= n == sorted@.len(),
            values@.len() == i,
            forall|j: int|
                0 <= j < i ==> values@[j] == (#[trigger] sorted@[j]).requests_per_second,
        decreases n - i,
    {
        values.push(sorted[i].requests_per_second);
        i = i + 1;
    }
    proof {
        assert(values@ =~= rps_of(sorted@));
        assert(sorted_desc_values(values@));
        assert(sorted@.len() * (config.max_bar_width + config.max_bar_width / 10) <= results@.len()
            * (config.max_bar_width + config.max_bar_width / 10)) by (nonlinear_arith)
            requires
                0 <= sorted@.len() <= results@.len(),
                config.max_bar_width + config.max_bar_width / 10 >= 0,
        ;
    }
    match compute_layout(&values, config) {
        Result::Err(e) => Result::Err(e),
        Result::Ok(LayoutOutcome::NoData) => Result::Ok(ChartData::NoData),
        Result::Ok(LayoutOutcome::Chart(layout)) => {
            let mut labels: Vec<BarLabels> = Vec::new();
            let mut i: usize = 0;
            while i < n
                invariant
                    i <= n == sorted@.len(),
                    labels@.len() == i,
                    forall|j: int| 0 <= j < i ==> labels_match(#[trigger] labels@[j], sorted@[j]),
                decreases n - i,
            {
                let t = &sorted[i];
                let webserver = split_label(t.webserver_name.as_str());
                let database = match &t.database {
                    Some(d) => Some(split_label(d.as_str())),
                    None => None,
                };
                let tag = match &t.database {
                    Some(d) => extra_tag(d.as_str()),
                    None => None,
                };
                labels.push(
                    BarLabels { language: t.language.clone(), webserver, database, extra_tag: tag },
                );
                i = i + 1;
            }
            Result::Ok(ChartData::Chart { layout, labels })
        },
    }
}

} // verus!
