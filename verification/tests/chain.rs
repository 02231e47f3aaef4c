use zenith_scene::chain::{ChainNode, plan_chains};
use zenith_scene::chain::adjust_for_widow_orphan;

/// The paragraph index of each line, in order.
fn lines_with_paragraphs(paras: &[usize]) -> Vec<usize> {
    paras.to_vec()
}

#[test]
fn no_straddle_keeps_take() {
    // take=3: line 2 is paragraph 0, line 3 is paragraph 1 → no straddle.
    let lines = lines_with_paragraphs(&[0, 0, 0, 1, 1, 1]);
    assert_eq!(adjust_for_widow_orphan(&lines, 3, 2), 3);
}

#[test]
fn orphan_single_first_line_pulled_down() {
    let lines = lines_with_paragraphs(&[0, 0, 0, 1, 1, 1]);
    assert_eq!(adjust_for_widow_orphan(&lines, 4, 2), 3);
}

#[test]
fn widow_single_last_line_pulled_down() {
    let lines = lines_with_paragraphs(&[0, 0, 0, 0, 0, 0, 1, 1]);
    // take=5 → bottom_count(P0)=1 (line index 5), top_count=5. Pull 1 down.
    assert_eq!(adjust_for_widow_orphan(&lines, 5, 2), 4);
}

#[test]
fn satisfied_both_sides_unchanged() {
    let lines = lines_with_paragraphs(&[0, 0, 0, 0]);
    // take=2: top=2 lines of P0, bottom=2 lines of P0 → fine.
    assert_eq!(adjust_for_widow_orphan(&lines, 2, 2), 2);
}

#[test]
fn degenerate_would_empty_box_left_as_is() {
    let lines = lines_with_paragraphs(&[1, 1, 1]);
    assert_eq!(adjust_for_widow_orphan(&lines, 1, 2), 1);
}

#[test]
fn nothing_kept_or_nothing_overflowing_is_unchanged() {
    let lines = lines_with_paragraphs(&[0, 0, 0]);
    assert_eq!(adjust_for_widow_orphan(&lines, 0, 2), 0);
    assert_eq!(adjust_for_widow_orphan(&lines, 3, 2), 3);
    assert_eq!(adjust_for_widow_orphan(&lines, 7, 2), 7);
    assert_eq!(adjust_for_widow_orphan(&[], 0, 2), 0);
}

#[test]
fn widow_and_orphan_together_move_whole_top_chunk() {
    // Paragraph 1 has 3 lines; take=6 keeps [0,0,0,0,1,1], next box gets one
    // line of P1. Pulling one line down leaves a lone orphan → whole top chunk
    // (2 lines) moves down.
    let lines = lines_with_paragraphs(&[0, 0, 0, 0, 1, 1, 1, 2]);
    assert_eq!(adjust_for_widow_orphan(&lines, 6, 2), 4);
}

#[test]
fn larger_minimum_pulls_more_lines() {
    // P0 has 10 lines; cut after 9 leaves one widow line. With n=3 two more
    // lines go down: top 7, bottom 3.
    let lines = lines_with_paragraphs(&[0, 0, 0, 0, 0, 0, 0, 0, 0, 0, 1]);
    assert_eq!(adjust_for_widow_orphan(&lines, 9, 3), 7);
}

#[test]
fn adjusted_cut_honours_the_minimum_on_both_sides() {
    let lines = lines_with_paragraphs(&[0, 0, 1, 1, 1, 1, 1, 2, 2]);
    for take in 1..lines.len() {
        let r = adjust_for_widow_orphan(&lines, take, 2);
        assert!(r >= 1 && r <= take);
        if r < lines.len() && lines[r - 1] == lines[r] {
            let para = lines[r];
            let top = lines[..r].iter().rev().take_while(|&&p| p == para).count();
            let bottom = lines[r..].iter().take_while(|&&p| p == para).count();
            let degenerate = r == take && top == take;
            assert!(degenerate || (top >= 2 && bottom >= 2), "take {take} → {r}");
        }
    }
}

#[test]
fn minimum_of_zero_or_one_never_moves_lines() {
    let lines = lines_with_paragraphs(&[0, 0, 0, 0]);
    for take in 0..=4 {
        assert_eq!(adjust_for_widow_orphan(&lines, take, 0), take);
        assert_eq!(adjust_for_widow_orphan(&lines, take, 1), take);
    }
}

fn node(chain: &str, has_spans: bool, has_box: bool) -> ChainNode {
    ChainNode { chain: chain.to_owned(), has_spans, has_box }
}

#[test]
fn chains_group_members_in_order_with_first_spanned_source() {
    let nodes = vec![
        node("b", true, true),
        node("a", false, true),
        node("b", false, true),
        node("a", true, false),
        node("c", true, false),
        node("a", true, true),
    ];
    let plans = plan_chains(&nodes);
    let summary: Vec<(&str, Option<usize>, Vec<usize>)> = plans
        .iter()
        .map(|p| (p.chain.as_str(), p.source, p.members.clone()))
        .collect();
    assert_eq!(
        summary,
        vec![("a", Some(3), vec![1, 5]), ("b", Some(0), vec![0, 2])]
    );
}

#[test]
fn chain_without_spans_has_no_source() {
    let nodes = vec![node("x", false, true), node("x", false, true)];
    let plans = plan_chains(&nodes);
    assert_eq!(plans.len(), 1);
    assert_eq!(plans[0].source, None);
    assert_eq!(plans[0].members, vec![0, 1]);
}

#[test]
fn no_boxed_members_means_no_chains() {
    assert!(plan_chains(&[]).is_empty());
    assert!(plan_chains(&[node("x", true, false)]).is_empty());
}
