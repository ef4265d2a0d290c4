use cellular::automata::next_middle;
use cellular::automata::Automata;
use cellular::automata::Automata::{Air, GameOfLife, Redstone, RedstoneBlock, Slime, Slug, Water};
use cellular::automata::Direction::{Down, Left, Right, Up};
use cellular::automata::Surroundings;

fn uniform(middle: Automata, around: Automata) -> Surroundings {
    Surroundings {
        topleft: around,
        topmiddle: around,
        topright: around,
        left: around,
        middle,
        right: around,
        bottomleft: around,
        bottommiddle: around,
        bottomright: around,
    }
}

#[test]
fn susceptibility() {
    assert!(Redstone(3).is_succeptible_to_liquid());
    assert!(RedstoneBlock().is_succeptible_to_liquid());
    assert!(Air().is_succeptible_to_liquid());
    assert!(Water(9).is_succeptible_to_liquid());
    assert!(!GameOfLife(false).is_succeptible_to_liquid());
    assert!(!Slug(Up).is_succeptible_to_liquid());
    assert!(!Slime().is_succeptible_to_liquid());
}

#[test]
fn wetting() {
    assert_eq!(Air().wet(3), Some(Water(2)));
    assert_eq!(Redstone(7).wet(3), Some(Water(2)));
    assert_eq!(RedstoneBlock().wet(1), Some(Water(0)));
    assert_eq!(Water(5).wet(3), None);
    assert_eq!(Water(3).wet(3), None);
    assert_eq!(Water(1).wet(5), Some(Water(4)));
    assert_eq!(Slime().wet(4), None);
    assert_eq!(GameOfLife(true).wet(4), None);
}

#[test]
fn powering() {
    assert_eq!(Redstone(0).powered(16), Some(Redstone(15)));
    assert_eq!(Redstone(15).powered(16), Some(Redstone(15)));
    assert_eq!(Redstone(5).powered(3), None);
    assert_eq!(Redstone(3).powered(3), None);
    assert_eq!(Redstone(2).powered(7), Some(Redstone(6)));
    assert_eq!(GameOfLife(false).powered(7), Some(GameOfLife(true)));
    assert_eq!(GameOfLife(true).powered(7), None);
    assert_eq!(Air().powered(9), None);
    assert_eq!(Slime().powered(9), None);
}

#[test]
fn infliction() {
    assert_eq!(Water(0).inflict(Air(), Down), None);
    assert_eq!(Water(5).inflict(Air(), Down), Some(Water(4)));
    assert_eq!(Water(5).inflict(Slime(), Down), None);
    assert_eq!(Slug(Right).inflict(Air(), Right), Some(Slug(Right)));
    assert_eq!(Slug(Right).inflict(Air(), Left), None);
    assert_eq!(Slug(Down).inflict(Water(3), Down), Some(Slug(Down)));
    assert_eq!(Redstone(0).inflict(Redstone(0), Up), None);
    assert_eq!(Redstone(4).inflict(Redstone(0), Up), Some(Redstone(3)));
    assert_eq!(RedstoneBlock().inflict(Redstone(0), Up), Some(Redstone(15)));
    assert_eq!(RedstoneBlock().inflict(GameOfLife(false), Up), Some(GameOfLife(true)));
    assert_eq!(Air().inflict(Air(), Up), None);
    assert_eq!(Slime().inflict(Air(), Up), None);
    assert_eq!(GameOfLife(true).inflict(Air(), Up), None);
}

#[test]
fn decay() {
    assert_eq!(Water(0).decay(), Air());
    assert_eq!(Water(5).decay(), Water(4));
    assert_eq!(Redstone(0).decay(), Redstone(0));
    assert_eq!(Redstone(9).decay(), Redstone(8));
    assert_eq!(Slug(Left).decay(), Slime());
    assert_eq!(RedstoneBlock().decay(), RedstoneBlock());
    assert_eq!(GameOfLife(true).decay(), GameOfLife(true));
    assert_eq!(GameOfLife(false).decay(), GameOfLife(false));
    assert_eq!(Air().decay(), Air());
    assert_eq!(Slime().decay(), Slime());
}

#[test]
fn resolution() {
    assert_eq!(Slug(Up).resolve_infliction(Slug(Down)), Slime());
    assert_eq!(Slug(Left).resolve_infliction(Water(3)), Slug(Left));
    assert_eq!(Water(3).resolve_infliction(Slug(Left)), Slug(Left));
    assert_eq!(Water(3).resolve_infliction(Water(5)), Water(5));
    assert_eq!(Water(5).resolve_infliction(Water(3)), Water(5));
    assert_eq!(Water(3).resolve_infliction(Redstone(2)), Water(3));
    assert_eq!(Redstone(2).resolve_infliction(Water(3)), Water(3));
    assert_eq!(Redstone(3).resolve_infliction(Redstone(7)), Redstone(7));
    assert_eq!(Redstone(7).resolve_infliction(Redstone(3)), Redstone(7));
    assert_eq!(GameOfLife(true).resolve_infliction(GameOfLife(true)), GameOfLife(true));
    assert_eq!(Slime().resolve_infliction(Redstone(4)), Slime());
    assert_eq!(Slime().resolve_infliction(Water(4)), Slime());
}

#[test]
fn requested_infliction() {
    assert_eq!(uniform(Air(), Air()).infliction_requested(), None);
    let s = Surroundings {
        left: RedstoneBlock(),
        ..uniform(Redstone(0), Air())
    };
    assert_eq!(s.infliction_requested(), Some(Redstone(15)));
    let both = Surroundings {
        left: Slug(Right),
        right: Slug(Left),
        ..uniform(Air(), Air())
    };
    assert_eq!(both.infliction_requested(), Some(Slime()));
}

#[test]
fn next_middle_liquid_decay() {
    assert_eq!(next_middle(uniform(Water(0), Air())), Air());
    assert_eq!(next_middle(uniform(Water(5), Slime())), Water(4));
}

#[test]
fn next_middle_power_clamp() {
    let low = Surroundings {
        left: RedstoneBlock(),
        ..uniform(Redstone(0), Air())
    };
    assert_eq!(next_middle(low), Redstone(15));
    let high = Surroundings {
        left: RedstoneBlock(),
        ..uniform(Redstone(15), Air())
    };
    assert_eq!(next_middle(high), Redstone(15));
}

#[test]
fn next_middle_movers() {
    let ahead = Surroundings {
        left: Slug(Right),
        ..uniform(Air(), Air())
    };
    assert_eq!(next_middle(ahead), Slug(Right));
    assert_eq!(next_middle(uniform(Slug(Right), Air())), Slime());
    let collision = Surroundings {
        left: Slug(Right),
        right: Slug(Left),
        ..uniform(Air(), Air())
    };
    assert_eq!(next_middle(collision), Slime());
}

#[test]
fn next_middle_life() {
    let woken = Surroundings {
        bottommiddle: Redstone(7),
        ..uniform(GameOfLife(false), Air())
    };
    assert_eq!(next_middle(woken), GameOfLife(true));
    let doubly_woken = Surroundings {
        topmiddle: RedstoneBlock(),
        bottommiddle: Redstone(7),
        ..uniform(GameOfLife(false), Air())
    };
    assert_eq!(next_middle(doubly_woken), GameOfLife(true));
    assert_eq!(next_middle(uniform(GameOfLife(false), Air())), GameOfLife(false));
    assert_eq!(next_middle(uniform(GameOfLife(true), Air())), GameOfLife(true));
}

#[test]
fn next_middle_wetting_beats_decay() {
    let wetted = Surroundings {
        topmiddle: Water(9),
        ..uniform(Redstone(3), Air())
    };
    assert_eq!(next_middle(wetted), Water(8));
    let merged = Surroundings {
        topmiddle: Water(9),
        bottommiddle: Water(4),
        ..uniform(Air(), Air())
    };
    assert_eq!(next_middle(merged), Water(8));
}
