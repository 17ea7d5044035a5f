use frechet::fid_forward::{fid_forward, fid_forward_layers, Error, Stage, Walk, STAGE_COUNT};
use std::collections::HashSet;

const CHAIN: [Stage; 21] = [
    Stage::Input,
    Stage::Conv2d1a3x3,
    Stage::Conv2d2a3x3,
    Stage::Conv2d2b3x3,
    Stage::MaxPool1,
    Stage::Conv2d3b1x1,
    Stage::Conv2d4a3x3,
    Stage::MaxPool2,
    Stage::Mixed5b,
    Stage::Mixed5c,
    Stage::Mixed5d,
    Stage::Mixed6a,
    Stage::Mixed6b,
    Stage::Mixed6c,
    Stage::Mixed6d,
    Stage::Mixed6e,
    Stage::Mixed7a,
    Stage::Mixed7b,
    Stage::Mixed7c,
    Stage::AvgPool,
    Stage::Dropout,
];

/// Runs a walk to its end: the layers it asked for, and the stages it handed out.
fn drive(mut walk: Walk) -> (Vec<Stage>, Vec<Stage>) {
    let mut run = Vec::new();
    let mut handed_out = Vec::new();
    loop {
        if walk.wanted() {
            handed_out.push(walk.stage());
        }
        match walk.advance() {
            Some(stage) => {
                assert_eq!(stage, walk.stage());
                run.push(stage);
            }
            None => return (run, handed_out),
        }
    }
}

#[test]
fn every_index_below_the_count_has_its_stage() {
    assert_eq!(STAGE_COUNT, 21);
    for (i, stage) in CHAIN.iter().enumerate() {
        assert_eq!(Stage::from_index(i), Ok(*stage));
        assert_eq!(stage.index(), i);
    }
}

#[test]
fn an_index_beyond_the_chain_has_no_stage() {
    assert_eq!(Stage::from_index(21), Err(Error::LayerIndexOutOfBounds { layer: 21 }));
    assert_eq!(
        Stage::from_index(usize::MAX),
        Err(Error::LayerIndexOutOfBounds { layer: usize::MAX })
    );
}

#[test]
fn each_stage_has_its_shape() {
    let shapes: [(usize, usize, usize); 21] = [
        (3, 299, 299),
        (32, 149, 149),
        (32, 147, 147),
        (64, 147, 147),
        (64, 73, 73),
        (80, 73, 73),
        (192, 71, 71),
        (192, 35, 35),
        (256, 35, 35),
        (288, 35, 35),
        (288, 35, 35),
        (768, 17, 17),
        (768, 17, 17),
        (768, 17, 17),
        (768, 17, 17),
        (768, 17, 17),
        (1280, 8, 8),
        (2048, 8, 8),
        (2048, 8, 8),
        (2048, 1, 1),
        (2048, 1, 1),
    ];
    for (stage, shape) in CHAIN.iter().zip(shapes.iter()) {
        assert_eq!(stage.sample_dims(), *shape);
        assert!(stage.accepts(7, &[7, shape.0, shape.1, shape.2]));
    }
}

#[test]
fn a_stage_accepts_its_own_shape_only() {
    let s = Stage::Mixed7a;
    assert!(s.accepts(4, &[4, 1280, 8, 8]));
    assert!(s.accepts(0, &[0, 1280, 8, 8]));
    assert!(!s.accepts(4, &[5, 1280, 8, 8]));
    assert!(!s.accepts(4, &[4, 2048, 8, 8]));
    assert!(!s.accepts(4, &[4, 1280, 7, 8]));
    assert!(!s.accepts(4, &[4, 1280, 8, 9]));
    assert!(!s.accepts(4, &[4, 1280, 8]));
    assert!(!s.accepts(4, &[4, 1280, 8, 8, 1]));
    assert!(!s.accepts(4, &[]));
}

#[test]
fn the_walk_to_the_input_runs_no_layer() {
    let walk = Walk::single(0).unwrap();
    assert_eq!(walk.stage(), Stage::Input);
    assert!(walk.wanted());
    let (run, handed_out) = drive(walk);
    assert_eq!(run, Vec::<Stage>::new());
    assert_eq!(handed_out, vec![Stage::Input]);
}

#[test]
fn the_walk_to_a_stage_stops_there() {
    let (run, handed_out) = drive(Walk::single(5).unwrap());
    assert_eq!(run, CHAIN[1..=5].to_vec());
    assert_eq!(handed_out, vec![Stage::Conv2d3b1x1]);
}

#[test]
fn the_walk_to_the_last_stage_runs_every_layer() {
    let (run, handed_out) = drive(Walk::single(20).unwrap());
    assert_eq!(run, CHAIN[1..].to_vec());
    assert_eq!(handed_out, vec![Stage::Dropout]);
}

#[test]
fn no_walk_leads_beyond_the_chain() {
    assert!(matches!(Walk::single(21), Err(Error::LayerIndexOutOfBounds { layer: 21 })));
    assert!(matches!(
        Walk::single(usize::MAX),
        Err(Error::LayerIndexOutOfBounds { layer: usize::MAX })
    ));
}

#[test]
fn a_finished_walk_stays_where_it_is() {
    let mut walk = Walk::single(1).unwrap();
    assert_eq!(walk.advance(), Some(Stage::Conv2d1a3x3));
    assert_eq!(walk.advance(), None);
    assert_eq!(walk.advance(), None);
    assert_eq!(walk.stage(), Stage::Conv2d1a3x3);
    assert!(walk.wanted());
}

#[test]
fn collecting_hands_out_the_stages_asked_for_in_the_order_of_the_chain() {
    let layers: HashSet<usize> = [20, 0, 7].into_iter().collect();
    let (run, handed_out) = drive(Walk::collecting(&layers));
    assert_eq!(run, CHAIN[1..].to_vec());
    assert_eq!(handed_out, vec![Stage::Input, Stage::MaxPool2, Stage::Dropout]);
}

#[test]
fn collecting_passes_over_an_index_beyond_the_chain() {
    let layers: HashSet<usize> = [21, 3, 1000].into_iter().collect();
    let (run, handed_out) = drive(Walk::collecting(&layers));
    assert_eq!(run.len(), 20);
    assert_eq!(handed_out, vec![Stage::Conv2d2b3x3]);
}

#[test]
fn collecting_nothing_still_runs_the_chain() {
    let (run, handed_out) = drive(Walk::collecting(&HashSet::new()));
    assert_eq!(run, CHAIN[1..].to_vec());
    assert_eq!(handed_out, Vec::<Stage>::new());
}

#[test]
fn collecting_everything_hands_out_every_stage() {
    let layers: HashSet<usize> = (0..21).collect();
    let (run, handed_out) = drive(Walk::collecting(&layers));
    assert_eq!(run, CHAIN[1..].to_vec());
    assert_eq!(handed_out, CHAIN.to_vec());
}

#[test]
fn collecting_one_stage_hands_out_what_the_walk_to_it_does() {
    for layer in 0..21 {
        let only: HashSet<usize> = [layer].into_iter().collect();
        let (_, collected) = drive(Walk::collecting(&only));
        let (_, single) = drive(Walk::single(layer).unwrap());
        assert_eq!(collected, single);
    }
}

/// A tensor that records the layers that were run on it.
fn apply(stage: Stage, mut x: Vec<Stage>) -> Vec<Stage> {
    x.push(stage);
    x
}

#[test]
fn forward_to_the_input_gives_the_input_back() {
    assert_eq!(fid_forward(apply, Vec::new(), 0), Ok(Vec::new()));
    assert_eq!(fid_forward(apply, vec![Stage::Dropout], 0), Ok(vec![Stage::Dropout]));
}

#[test]
fn forward_runs_the_layers_up_to_the_stage_in_order() {
    assert_eq!(fid_forward(apply, Vec::new(), 3), Ok(CHAIN[1..=3].to_vec()));
    assert_eq!(fid_forward(apply, Vec::new(), 20), Ok(CHAIN[1..].to_vec()));
}

#[test]
fn forward_beyond_the_chain_runs_no_layer() {
    let r = fid_forward(|_, _: u8| unreachable!(), 0, 21);
    assert_eq!(r, Err(Error::LayerIndexOutOfBounds { layer: 21 }));
}

#[test]
fn forward_layers_keeps_the_tensors_of_the_stages_asked_for() {
    let layers: HashSet<usize> = [2, 0, 20, 21].into_iter().collect();
    let out = fid_forward_layers(apply, Vec::new(), &layers);
    assert_eq!(out, vec![Vec::new(), CHAIN[1..=2].to_vec(), CHAIN[1..].to_vec()]);
}

#[test]
fn forward_layers_runs_each_layer_once_whatever_is_asked_for() {
    let runs = std::cell::RefCell::new(Vec::new());
    let out = fid_forward_layers(
        |stage, x: u32| {
            runs.borrow_mut().push(stage);
            x + 1
        },
        0,
        &HashSet::new(),
    );
    assert_eq!(out, Vec::<u32>::new());
    assert_eq!(*runs.borrow(), CHAIN[1..].to_vec());
}

#[test]
fn forward_layers_of_one_stage_is_forward_to_that_stage() {
    for layer in 0..21 {
        let only: HashSet<usize> = [layer].into_iter().collect();
        let out = fid_forward_layers(apply, Vec::new(), &only);
        assert_eq!(out, vec![fid_forward(apply, Vec::new(), layer).unwrap()]);
    }
}
