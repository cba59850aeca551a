use std::collections::HashSet;

use rand::SeedableRng;

use kcore::board::Board;
use kcore::board::BoardType;
use kcore::hex::HexType;
use kcore::index::Index;
use kcore::junction::Junction;
use kcore::player::Player;
use kcore::port::Port;
use kcore::resource::Resource;
use kcore::resource::ResourceCounts;
use kcore::road::Road;

fn rng(seed: u64) -> rand::rngs::StdRng {
    rand::rngs::StdRng::seed_from_u64(seed)
}

fn counts(pairs: &[(Resource, u32)]) -> ResourceCounts {
    let mut c = ResourceCounts::new();
    for (r, n) in pairs {
        c = c.with(*r, *n);
    }
    c
}

fn claim_road(b: &mut Board, x: u16, y: u16, owner: u64) -> Road {
    let i = Index::new(x, y);
    let r = *b.get_road(&i).expect("road slot");
    let owned = Road { owner: Some(owner), ..r };
    assert!(b.set_road(&i, owned));
    owned
}

fn claim_junction(b: &mut Board, x: u16, y: u16, owner: u64) {
    let i = Index::new(x, y);
    let j = *b.get_junction(&i).expect("junction slot");
    assert!(b.set_junction(&i, Junction { owner: Some(owner), ..j }));
}

const ME: u64 = 100;
const YOU: u64 = 101;
const OTHER: u64 = 101;

fn check_longest_road(my_roads: Vec<(u16, u16)>, your_junctions: Vec<(u16, u16)>) -> usize {
    let mut b = Board::new(BoardType::Standard, &mut rng(7));
    let roads: Vec<Index> = my_roads.iter().map(|(x, y)| Index::new(*x, *y)).collect();
    for (x, y) in &my_roads {
        claim_road(&mut b, *x, *y, ME);
    }
    for (x, y) in your_junctions {
        claim_junction(&mut b, x, y, YOU);
    }
    b.longest_road(ME, &roads)
}

#[test]
fn test_longest_road() {
    assert_eq!(check_longest_road(vec![], vec![]), 0);
    assert_eq!(check_longest_road(vec![(2, 7)], vec![]), 1);
    assert_eq!(check_longest_road(vec![(2, 7), (2, 9)], vec![]), 2);
    assert_eq!(check_longest_road(vec![(2, 7), (6, 9)], vec![]), 1);
    assert_eq!(check_longest_road(vec![(2, 7), (2, 9)], vec![(1, 8)]), 1);
    assert_eq!(
        check_longest_road(
            vec![(2, 7), (2, 9), (4, 10), (4, 6), (6, 7), (6, 9)],
            vec![]
        ),
        6
    );
    assert_eq!(
        check_longest_road(
            vec![
                (2, 7),
                (2, 9),
                (4, 10),
                (4, 6),
                (6, 11),
                (6, 5),
                (6, 7),
                (6, 9),
            ],
            vec![]
        ),
        7
    );
}

#[test]
fn test_hand() {
    let mut p = Player::new(ME);
    assert!(p.can_afford(&counts(&[(Resource::Ore, 0)])));
    assert!(!p.can_afford(&counts(&[(Resource::Ore, 1)])));

    p.accrue(&counts(&[(Resource::Ore, 1)]));
    assert!(p.can_afford(&counts(&[(Resource::Ore, 0)])));
    assert!(p.can_afford(&counts(&[(Resource::Ore, 1)])));
    assert!(!p.can_afford(&counts(&[(Resource::Ore, 2)])));
    assert!(!p.can_afford(&counts(&[(Resource::Ore, 1), (Resource::Wheat, 1)])));

    p.spend(&counts(&[(Resource::Ore, 1)]));
    assert!(p.can_afford(&counts(&[(Resource::Ore, 0)])));
    assert!(!p.can_afford(&counts(&[(Resource::Ore, 1)])));
}

#[test]
fn test_bank_trade_rates() {
    let mut p = Player::new(ME);
    let i = Index::new(1, 1);

    let rates = ResourceCounts::uniform(4);
    assert_eq!(p.bank_trade_rates, rates);

    p.push_settlement(&Junction::new(i, None));
    assert_eq!(p.bank_trade_rates, rates);

    p.push_settlement(&Junction::new(i, Some(Port::Any)));
    let rates = ResourceCounts::uniform(3);
    assert_eq!(p.bank_trade_rates, rates);

    p.push_settlement(&Junction::new(i, Some(Port::Only(Resource::Ore))));
    let rates = ResourceCounts::uniform(3).with(Resource::Ore, 2);
    assert_eq!(p.bank_trade_rates, rates);
}

type Xy = (u16, u16);
type XyPair = (Xy, Xy);

fn doubly_reachable(
    me: &mut Player,
    my_roads: Vec<Xy>,
    other_settlements: Vec<Xy>,
) -> HashSet<XyPair> {
    let mut b = Board::new(BoardType::Standard, &mut rng(11));
    for (x, y) in my_roads {
        let owned = claim_road(&mut b, x, y, ME);
        me.push_road(&owned);
    }
    for (x, y) in other_settlements {
        claim_junction(&mut b, x, y, OTHER);
    }
    me.doubly_reachable_roads(&b)
        .into_iter()
        .map(|(r1, r2)| ((r1.x, r1.y), (r2.x, r2.y)))
        .collect()
}

#[test]
fn test_doubly_reachable_roads() {
    let mut me = Player::new(ME);
    let pairs = doubly_reachable(&mut me, vec![], vec![]);
    assert_eq!(pairs, HashSet::new());

    let a = (2, 7);
    let b = (2, 9);
    let c = (2, 11);
    let d = (4, 6);
    let e = (4, 10);
    let f = (6, 5);
    let g = (6, 7);
    let x = (3, 10);

    let pairs = doubly_reachable(&mut me, vec![a], vec![]);
    assert_eq!(
        pairs,
        vec![(b, c), (b, d), (b, e), (d, b), (d, f), (d, g)]
            .into_iter()
            .collect::<HashSet<XyPair>>()
    );

    let pairs = doubly_reachable(&mut me, vec![a], vec![x]);
    assert_eq!(
        pairs,
        vec![(b, d), (d, b), (d, f), (d, g)]
            .into_iter()
            .collect::<HashSet<XyPair>>()
    );
}

#[test]
fn accrue_then_spend_round_trip() {
    let mut p = Player::new(ME);
    p.accrue(&counts(&[(Resource::Wood, 3), (Resource::Brick, 2)]));
    let before = p.hand;
    let bundle = counts(&[(Resource::Wood, 2), (Resource::Sheep, 5)]);
    p.accrue(&bundle);
    p.spend(&bundle);
    assert_eq!(p.hand, before);
}

#[test]
fn board_factory_shape() {
    let mut r = rng(3);
    let b = Board::new(BoardType::Standard, &mut r);
    // the desert exists, exactly once, and carries no roll trigger
    let mut deserts = 0;
    let mut land = 0;
    let mut ocean = 0;
    for h in b.hexes() {
        match h.hex_type {
            HexType::Desert => deserts += 1,
            HexType::Ocean => ocean += 1,
            HexType::WithResource(hr) => {
                land += 1;
                assert!(hr.roll >= 2 && hr.roll <= 12 && hr.roll != 7);
            }
        }
    }
    assert_eq!(deserts, 1);
    assert_eq!(land, 18);
    assert_eq!(ocean, 18);
    // every junction starts open
    for j in b.junctions() {
        assert!(j.is_settleable && j.owner.is_none() && !j.has_settlement && !j.has_city);
    }
}

#[test]
fn port_pile_pairing_matches_template() {
    // the two coastal junctions sharing a template slot always draw
    // the same port, and the drawn pile is the fixed nine
    let mut r = rng(17);
    let b = Board::new(BoardType::Standard, &mut r);
    let shared = [
        ((1u16, 8u16), (3u16, 6u16)),
        ((1, 12), (3, 14)),
        ((5, 18), (7, 20)),
        ((7, 4), (9, 4)),
        ((11, 22), (13, 22)),
        ((15, 4), (17, 4)),
        ((17, 20), (19, 18)),
        ((21, 6), (23, 8)),
        ((21, 14), (23, 12)),
    ];
    let mut drawn: Vec<Port> = Vec::new();
    for ((x1, y1), (x2, y2)) in shared {
        let a = b.get_junction(&Index::new(x1, y1)).expect("port junction");
        let c = b.get_junction(&Index::new(x2, y2)).expect("port junction");
        assert_eq!(a.port, c.port);
        drawn.push(a.port.expect("designated slot carries a port"));
    }
    let anys = drawn.iter().filter(|p| matches!(p, Port::Any)).count();
    assert_eq!(anys, 4);
    for r in [
        Resource::Brick,
        Resource::Ore,
        Resource::Sheep,
        Resource::Wheat,
        Resource::Wood,
    ] {
        assert_eq!(
            drawn.iter().filter(|p| **p == Port::Only(r)).count(),
            1
        );
    }
    // and every junction outside the designated slots has no port
    let mut with_port = 0;
    for j in b.junctions() {
        if j.port.is_some() {
            with_port += 1;
        }
    }
    assert_eq!(with_port, 18);
}

#[test]
fn rival_settlement_splits_chain() {
    // a straight chain cut in the middle by a rival settlement reports
    // the longer remaining stretch
    assert_eq!(
        check_longest_road(
            vec![(2, 7), (2, 9), (4, 10), (6, 11), (6, 9)],
            vec![(5, 10)]
        ),
        3
    );
}
