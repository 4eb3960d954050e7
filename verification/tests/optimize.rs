use rand::rngs::Xoshiro256PlusPlus;
use rand::{Rng, SeedableRng};
use sparrow::optimizer::hazards::missing_hazards;
use sparrow::optimizer::lbf::ConstructionError;
use sparrow::optimizer::{optimize, Action, Event, OptimizationPhase, Optimizer, Stage};

type Step = (Optimizer, Vec<Action<&'static str, u32>>);

fn start() -> Optimizer {
    Optimizer::new(Xoshiro256PlusPlus::seed_from_u64(11), 600, 400)
}

/// The generators that the words of the given generator seed, in order.
fn children() -> Vec<Xoshiro256PlusPlus> {
    let mut rng = Xoshiro256PlusPlus::seed_from_u64(11);
    (0..3).map(|_| Xoshiro256PlusPlus::seed_from_u64(rng.next_u64())).collect()
}

#[test]
fn run_without_initial_solution() {
    let children = children();
    let (optimizer, actions): Step = optimize(start(), Event::Begin { warm: false });
    assert_eq!(optimizer.stage, Stage::Constructing);
    assert_eq!(actions.len(), 1);
    assert!(matches!(&actions[0], Action::Construct { rng } if *rng == children[0]));

    let (optimizer, actions): Step = optimize(optimizer, Event::Constructed(Ok("built")));
    assert_eq!(optimizer.stage, Stage::Exploring);
    assert_eq!(actions.len(), 3);
    assert!(matches!(actions[0], Action::ReportPhase(OptimizationPhase::Exploration)));
    assert!(matches!(actions[1], Action::NewTimeout(600)));
    assert!(matches!(&actions[2], Action::Explore { prob: "built", rng } if *rng == children[1]));

    let explored = Event::Explored { prob: "explored", solutions: vec![5, 4, 3] };
    let (optimizer, actions): Step = optimize(optimizer, explored);
    assert_eq!(optimizer.stage, Stage::Compressing);
    assert_eq!(actions.len(), 3);
    assert!(matches!(actions[0], Action::ReportPhase(OptimizationPhase::Compression)));
    assert!(matches!(actions[1], Action::NewTimeout(400)));
    assert!(matches!(
        &actions[2],
        Action::Compress { prob: "explored", from: 3, rng } if *rng == children[2]
    ));

    let (optimizer, actions): Step = optimize(optimizer, Event::Compressed(2));
    assert_eq!(optimizer.stage, Stage::Done);
    assert_eq!(actions.len(), 1);
    assert!(matches!(actions[0], Action::Finish(2)));
}

#[test]
fn run_from_an_initial_solution() {
    let children = children();
    let (optimizer, actions): Step = optimize(start(), Event::Begin { warm: true });
    assert_eq!(optimizer.stage, Stage::Restoring);
    assert_eq!(actions.len(), 1);
    assert!(matches!(actions[0], Action::Restore));

    // Nothing was constructed, so the exploration gets the first generator.
    let (optimizer, actions): Step = optimize(optimizer, Event::Restored("restored"));
    assert_eq!(actions.len(), 3);
    assert!(matches!(actions[0], Action::ReportPhase(OptimizationPhase::Exploration)));
    assert!(matches!(actions[1], Action::NewTimeout(600)));
    assert!(matches!(&actions[2], Action::Explore { prob: "restored", rng } if *rng == children[0]));

    let explored = Event::Explored { prob: "explored", solutions: vec![7] };
    let (_, actions): Step = optimize(optimizer, explored);
    assert!(matches!(
        &actions[2],
        Action::Compress { prob: "explored", from: 7, rng } if *rng == children[1]
    ));
}

#[test]
fn construction_error_ends_the_run() {
    let (optimizer, _): Step = optimize(start(), Event::Begin { warm: false });
    let error = ConstructionError { item_id: 3 };
    let (optimizer, actions): Step = optimize(optimizer, Event::Constructed(Err(error)));
    assert_eq!(optimizer.stage, Stage::Done);
    assert_eq!(actions.len(), 1);
    assert!(matches!(actions[0], Action::Fail(ConstructionError { item_id: 3 })));
}

#[test]
fn hazards_are_registered_once() {
    let none: Vec<usize> = vec![];
    assert_eq!(missing_hazards(&vec![1, 2], &vec![2, 3, 1, 3, 4]), vec![1, 4]);
    assert_eq!(missing_hazards(&none, &vec![5, 5]), vec![0]);
    assert_eq!(missing_hazards(&vec![5], &vec![5]), none);
    assert_eq!(missing_hazards(&vec![5], &none), none);
    // What is equal is the same for a layout, though it may differ.
    assert_eq!(missing_hazards(&vec![0.0f32], &vec![-0.0, 1.0, 1.0]), vec![1]);
    // What differs from itself is never found.
    assert_eq!(missing_hazards(&vec![f32::NAN], &vec![f32::NAN, f32::NAN]), vec![0, 1]);
}
