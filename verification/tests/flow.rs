use firework::element::{rect, Element, IdGenerator};
use firework::flow::{distribute, measure, tally, DEFAULT_LENGTH};
use firework::geometry::Vector2;

fn growing(ids: &mut IdGenerator, weight: u32) -> Element {
    let mut e = rect(ids, 0).layout_weight(weight);
    e.size = None;
    e
}

fn soft(ids: &mut IdGenerator) -> Element {
    growing(ids, 0)
}

fn fixed(ids: &mut IdGenerator, width: i32, height: i32) -> Element {
    rect(ids, 0).size(Vector2::new(width, height))
}

fn lengths(children: &Vec<Element>, row: bool, length: u32, gap: u32, wrap: bool) -> Vec<u32> {
    distribute(children, row, length, gap, wrap).spans.iter().map(|s| s.length).collect()
}

fn starts(children: &Vec<Element>, row: bool, length: u32, gap: u32, wrap: bool) -> Vec<u128> {
    distribute(children, row, length, gap, wrap).spans.iter().map(|s| s.start).collect()
}

#[test]
fn a_child_is_fixed_soft_or_growing() {
    let mut ids = IdGenerator::new();
    let a = measure(&fixed(&mut ids, 30, 70), true);
    assert_eq!((a.base, a.weight, a.soft), (30, 0, 0));
    let b = measure(&fixed(&mut ids, 30, 70), false);
    assert_eq!((b.base, b.weight, b.soft), (70, 0, 0));
    let c = measure(&fixed(&mut ids, -30, 70).layout_weight(5), true);
    assert_eq!((c.base, c.weight, c.soft), (0, 0, 0));
    let d = measure(&soft(&mut ids), true);
    assert_eq!((d.base, d.weight, d.soft), (100, 0, 1));
    assert_eq!(DEFAULT_LENGTH, 100);
    let e = measure(&growing(&mut ids, 7), false);
    assert_eq!((e.base, e.weight, e.soft), (0, 7, 0));
}

#[test]
fn sums_over_a_line() {
    let mut ids = IdGenerator::new();
    let children =
        vec![fixed(&mut ids, 30, 70), soft(&mut ids), growing(&mut ids, 7), growing(&mut ids, 2)];
    let t = tally(&children, true);
    assert_eq!((t.base, t.weight, t.soft), (130, 9, 1));
    let none = tally(&vec![], false);
    assert_eq!((none.base, none.weight, none.soft), (0, 0, 0));
}

#[test]
fn free_space_is_shared_by_weight_and_nothing_is_lost() {
    let mut ids = IdGenerator::new();
    let children = vec![growing(&mut ids, 1), growing(&mut ids, 2)];
    assert_eq!(lengths(&children, true, 100, 0, false), vec![33, 67]);
    assert_eq!(starts(&children, true, 100, 0, false), vec![0, 33]);
    assert_eq!(distribute(&children, true, 100, 0, false).leftover, 0);

    let three = vec![growing(&mut ids, 1), growing(&mut ids, 1), growing(&mut ids, 1)];
    let shared = lengths(&three, false, 100, 5, false);
    assert_eq!(shared, vec![30, 30, 30]);
    assert_eq!(starts(&three, false, 100, 5, false), vec![0, 35, 70]);
    assert_eq!(shared.iter().sum::<u32>() + 5 * 2, 100);

    let uneven = lengths(&three, true, 101, 0, false);
    assert_eq!(uneven, vec![33, 34, 34]);
    assert_eq!(uneven.iter().sum::<u32>(), 101);
}

#[test]
fn fixed_children_are_taken_out_before_the_rest_is_shared() {
    let mut ids = IdGenerator::new();
    let children = vec![fixed(&mut ids, 120, 10), growing(&mut ids, 3), soft(&mut ids)];
    // 400 - 2 * 10 - 120 - 100 = 160 for the growing child.
    assert_eq!(lengths(&children, true, 400, 10, false), vec![120, 160, 100]);
    assert_eq!(starts(&children, true, 400, 10, false), vec![0, 130, 300]);
    assert_eq!(distribute(&children, true, 400, 10, false).leftover, 0);
}

#[test]
fn without_a_growing_child_the_free_space_is_left_over() {
    let mut ids = IdGenerator::new();
    let children = vec![fixed(&mut ids, 50, 10), soft(&mut ids)];
    let d = distribute(&children, true, 400, 10, false);
    assert_eq!(d.spans[0].length, 50);
    assert_eq!(d.spans[1].length, 100);
    assert_eq!(d.spans[1].start, 60);
    assert_eq!(d.leftover, 240);
}

#[test]
fn soft_children_give_way_evenly_when_space_is_short() {
    let mut ids = IdGenerator::new();
    let children = vec![soft(&mut ids), soft(&mut ids), soft(&mut ids)];
    let shrunk = lengths(&children, true, 250, 0, false);
    assert_eq!(shrunk, vec![83, 83, 84]);
    assert_eq!(starts(&children, true, 250, 0, false), vec![0, 83, 166]);
    assert_eq!(shrunk.iter().sum::<u32>(), 250);
    assert_eq!(distribute(&children, true, 250, 0, false).leftover, 0);
}

#[test]
fn soft_children_give_up_no_more_than_they_have() {
    let mut ids = IdGenerator::new();
    let children = vec![soft(&mut ids), fixed(&mut ids, 300, 10), growing(&mut ids, 4)];
    assert_eq!(lengths(&children, true, 200, 0, false), vec![0, 300, 0]);
    assert_eq!(starts(&children, true, 200, 0, false), vec![0, 0, 300]);
    assert_eq!(distribute(&children, true, 200, 0, false).leftover, 0);
}

#[test]
fn a_wrapping_line_does_not_shrink() {
    let mut ids = IdGenerator::new();
    let children = vec![soft(&mut ids), soft(&mut ids), soft(&mut ids)];
    assert_eq!(lengths(&children, true, 250, 0, true), vec![100, 100, 100]);
}

#[test]
fn an_empty_line_leaves_everything_over() {
    let d = distribute(&vec![], true, 300, 10, false);
    assert!(d.spans.is_empty());
    assert_eq!(d.leftover, 300);
}

#[test]
fn growing_children_always_take_up_the_whole_axis() {
    for length in [0u32, 1, 7, 99, 100, 101, 290, 1000, u32::MAX] {
        for gap in [0u32, 1, 10] {
            for weights in [vec![1u32], vec![1, 1], vec![1, 2, 3], vec![5, 0, 1, u32::MAX]] {
                let mut ids = IdGenerator::new();
                let children: Vec<Element> =
                    weights.iter().map(|w| growing(&mut ids, *w)).collect();
                let n = children.len() as u64;
                let softs = weights.iter().filter(|w| **w == 0).count() as u64;
                let taken = u64::from(gap) * (n - 1) + 100 * softs;
                if taken > u64::from(length) {
                    continue;
                }
                let d = distribute(&children, true, length, gap, false);
                let sum: u64 = d.spans.iter().map(|s| u64::from(s.length)).sum();
                assert_eq!(sum + u64::from(gap) * (n - 1), u64::from(length));
                assert_eq!(d.leftover, 0);
                let mut start = 0u128;
                for span in &d.spans {
                    assert_eq!(span.start, start);
                    start += u128::from(span.length) + u128::from(gap);
                }
            }
        }
    }
}

#[test]
fn soft_children_make_up_for_what_is_missing_as_far_as_they_can() {
    for softs in 1usize..6 {
        for length in 0u32..=(100 * softs as u32 + 50) {
            let mut ids = IdGenerator::new();
            let mut children: Vec<Element> = (0..softs).map(|_| soft(&mut ids)).collect();
            children.push(fixed(&mut ids, 50, 50));
            let d = distribute(&children, false, length, 0, false);
            let sum: u32 = d.spans.iter().map(|s| s.length).sum();
            assert_eq!(sum, length.max(50));
            assert_eq!(d.spans[softs].length, 50);
            let longest = d.spans[..softs].iter().map(|s| s.length).max().unwrap();
            let shortest = d.spans[..softs].iter().map(|s| s.length).min().unwrap();
            assert!(longest - shortest <= 1);
        }
    }
}
