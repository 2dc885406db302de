use extsort_iter::merge::array_node::{TreeNode, Winner};
use extsort_iter::merge::treebuilder::LoserTreeBuilder;
use extsort_iter::merge::{previous_power_of_two, LoserTree};
use extsort_iter::orderer::OrdOrderer;
use extsort_iter::run::buf_run::BufRun;
use extsort_iter::run::Run;

fn run_merge_test(runs: Vec<Vec<u32>>) {
    let buf_runs = runs.iter().cloned().map(BufRun::new).collect();
    let mut merger = LoserTree::new(buf_runs, OrdOrderer::new());

    let mut result = Vec::new();
    while let Some(next) = merger.next() {
        result.push(next);
    }

    let mut expected: Vec<_> = runs.iter().flatten().cloned().collect();
    expected.sort();

    assert_eq!(expected, result);
}

#[test]
fn test_merge_runs() {
    let run_1 = vec![1, 3, 5, 7];
    let run_4 = vec![0, 2, 4, 6];
    let run_3 = vec![8, 10, 12, 14];
    let run_2 = vec![9, 11, 13, 15];

    run_merge_test(vec![run_1, run_2, run_3, run_4]);
}

#[test]
fn test_merge_unbalanced() {
    let run_1 = vec![1, 4];
    let run_2 = vec![5, 6, 7];
    let run_3 = vec![2, 3];

    run_merge_test(vec![run_1, run_3, run_2]);
}

#[test]
fn test_merge_five() {
    let runs = vec![
        vec![20, 73],
        vec![29, 73],
        vec![3, 84],
        vec![33, 70],
        vec![63, 95],
    ];
    run_merge_test(runs);
}

#[test]
fn test_merge_many_shapes() {
    // merge every tree shape from one to twenty runs
    for num_runs in 1..20usize {
        let runs: Vec<Vec<u32>> = (0..num_runs)
            .map(|r| (0..5).map(|i| (i * num_runs + r) as u32).collect())
            .collect();
        run_merge_test(runs);
    }
}

#[test]
fn test_leaf_calculation() {
    fn run_test(expected_values: &[usize]) {
        let tree_size = expected_values.len() as u32;
        let values: Vec<_> = (0..tree_size)
            .map(|leaf| TreeNode::leaf_for_winner(Winner { idx: leaf }, tree_size as usize).idx)
            .collect();
        assert_eq!(expected_values, values);
    }
    run_test(&[1, 2]);
    run_test(&[3, 4, 2]);
    run_test(&[3, 4, 5, 6]);
    run_test(&[7, 8, 4, 5, 6]);
    run_test(&[7, 8, 9, 10, 5, 6]);
    run_test(&[7, 8, 9, 10, 11, 12, 6]);
    run_test(&[7, 8, 9, 10, 11, 12, 13, 14]);
    run_test(&[15, 16, 8, 9, 10, 11, 12, 13, 14]);
}

#[test]
fn test_remaining() {
    let run: BufRun<()> = BufRun::new(vec![]);
    assert_eq!(0, run.remaining_items())
}

fn assert_winner(tape: &[i64]) {
    let min_value = *tape.iter().min().unwrap();
    let runs: Vec<BufRun<i64>> = tape.iter().map(|v| BufRun::new(vec![*v])).collect();
    let mut tree = Vec::new();
    let winner = LoserTreeBuilder::new().build(&runs, &OrdOrderer::new(), &mut tree, runs.len());
    assert_eq!(min_value, tape[winner.idx as usize]);
    if tape.len() > 1 {
        assert!(min_value <= tape[tree[0] as usize])
    }
}

#[test]
fn test_power_two() {
    assert!(1usize.is_power_of_two())
}

fn run_tree_construction_test(max_size: usize) {
    for r in 1..max_size {
        assert_winner(&vec![0; r]);
        let mut tape = (0..r as i64).collect::<Vec<_>>();
        assert_winner(&tape);
        let mut reversed_tape = tape.clone();
        reversed_tape.reverse();
        assert_winner(&reversed_tape);
        reversed_tape.append(&mut tape);
        assert_winner(&reversed_tape);
    }
}

#[test]
fn test_construct_tree_small() {
    run_tree_construction_test(10);
}

#[test]
fn test_construct_tree() {
    run_tree_construction_test(100);
}

#[test]
fn previous_power_of_two_exact_values() {
    assert_eq!(previous_power_of_two(1), 1);
    assert_eq!(previous_power_of_two(2), 2);
    assert_eq!(previous_power_of_two(3), 2);
    assert_eq!(previous_power_of_two(4), 4);
    assert_eq!(previous_power_of_two(5), 4);
    assert_eq!(previous_power_of_two(255), 128);
    assert_eq!(previous_power_of_two(256), 256);
    assert_eq!(previous_power_of_two(257), 256);
}

#[test]
fn tree_node_navigation() {
    let root = TreeNode::root();
    assert!(root.is_root());
    assert_eq!(root.left().idx, 1);
    assert_eq!(root.right().idx, 2);
    assert_eq!(root.left().parent().idx, 0);
    assert_eq!(root.right().parent().idx, 0);
    let node = TreeNode { idx: 5 };
    assert_eq!(node.left().idx, 11);
    assert_eq!(node.right().idx, 12);
    assert_eq!(node.parent().idx, 2);
}
