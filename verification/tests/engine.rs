use rand::SeedableRng;

use kcore::action::Error;
use kcore::action::Payload;
use kcore::action::Request;
use kcore::board::BoardType;
use kcore::dev_card::DevCard;
use kcore::dev_card::DevCardInHand;
use kcore::dev_card::DevCardState;
use kcore::game::Game;
use kcore::index::Index;
use kcore::player::PlayerState;
use kcore::resource::Resource;
use kcore::resource::ResourceCounts;
use kcore::trade::Trade;
use kcore::trade::TradeWith;

fn rng(seed: u64) -> rand::rngs::StdRng {
    rand::rngs::StdRng::seed_from_u64(seed)
}

fn new_game(seed: u64, ids: &[u64], goal: u8) -> Game {
    let mut r = rng(seed);
    Game::new(ids.to_vec(), BoardType::Standard, goal, &mut r).expect("enough players")
}

fn current_id(g: &Game) -> u64 {
    g.player_order[g.current_player_index]
}

fn player_pos(g: &Game, id: u64) -> usize {
    g.players.iter().position(|p| p.id == id).expect("player")
}

fn counts(pairs: &[(Resource, u32)]) -> ResourceCounts {
    let mut c = ResourceCounts::new();
    for (r, n) in pairs {
        c = c.with(*r, *n);
    }
    c
}

fn first_settlement(actions: &[Request]) -> Index {
    for a in actions {
        if let Request::BuildSettlement(j) = a {
            return *j;
        }
    }
    panic!("no settlement action");
}

fn first_road(actions: &[Request]) -> Index {
    for a in actions {
        if let Request::BuildRoad(r) = a {
            return *r;
        }
    }
    panic!("no road action");
}

fn first_choice(actions: &[Request]) -> Index {
    for a in actions {
        if let Request::ChooseInitialResources(j) = a {
            return *j;
        }
    }
    panic!("no initial-resource action");
}

/// Plays both placement rounds of a fresh match to completion.
fn run_placement(g: &mut Game, r: &mut rand::rngs::StdRng) -> Vec<u64> {
    let n = g.player_order.len() as u64;
    let mut seen: Vec<u64> = Vec::new();
    while g.turn_number < 2 * n {
        let me = current_id(g);
        seen.push(me);
        let second = g.turn_number / n == 1;
        let actions = g.available_actions(me).expect("known player");
        let j = first_settlement(&actions);
        assert_eq!(g.make_move(me, Request::BuildSettlement(j), r), Ok(Payload::Null));
        let actions = g.available_actions(me).expect("known player");
        let road = first_road(&actions);
        assert_eq!(g.make_move(me, Request::BuildRoad(road), r), Ok(Payload::Null));
        if second {
            let actions = g.available_actions(me).expect("known player");
            let j2 = first_choice(&actions);
            assert_eq!(
                g.make_move(me, Request::ChooseInitialResources(j2), r),
                Ok(Payload::Null)
            );
        }
    }
    seen
}

#[test]
fn placement_rounds_and_first_roll() {
    let mut g = new_game(21, &[1, 2, 3], 10);
    let mut r = rng(22);
    let seen = run_placement(&mut g, &mut r);

    // snake order: forward, then backward, ending where play begins
    let order = g.player_order.clone();
    assert_eq!(
        seen,
        vec![order[0], order[1], order[2], order[2], order[1], order[0]]
    );
    assert_eq!(g.current_player_index, 0);

    let mut settlements = 0;
    let mut roads = 0;
    for p in &g.players {
        settlements += p.settlements.len();
        roads += p.roads.len();
    }
    assert_eq!(settlements, 6);
    assert_eq!(roads, 6);

    assert!(!g.has_rolled);
    let me = current_id(&g);
    let pos = player_pos(&g, me);
    assert!(matches!(g.players[pos].state, PlayerState::Root));

    // a forced seven is not in the catalog before the fifth round
    assert_eq!(
        g.make_move(me, Request::RollDice(Some(7)), &mut r),
        Err(Error::InvalidAction)
    );
    // while any other total resolves and distributes
    assert_eq!(
        g.make_move(me, Request::RollDice(Some(2)), &mut r),
        Ok(Payload::Rolled(2))
    );
    assert!(g.has_rolled);
}

#[test]
fn free_rolls_suppress_sevens_early() {
    let mut g = new_game(31, &[1, 2], 10);
    let mut r = rng(32);
    run_placement(&mut g, &mut r);
    let me = current_id(&g);
    for _ in 0..40 {
        g.has_rolled = false;
        let pos = player_pos(&g, me);
        g.players[pos].state = PlayerState::Root;
        g.players[pos].num_to_discard = 0;
        for p in g.players.iter_mut() {
            p.num_to_discard = 0;
        }
        match g.make_move(me, Request::RollDice(None), &mut r) {
            Ok(Payload::Rolled(v)) => {
                assert!((2..=12).contains(&v));
                assert_ne!(v, 7);
            }
            other => panic!("unexpected response {:?}", other),
        }
    }
}

#[test]
fn rolling_seven_after_round_five_marks_discards() {
    let mut g = new_game(41, &[1, 2], 10);
    let mut r = rng(42);
    run_placement(&mut g, &mut r);
    let n = g.player_order.len() as u64;
    // fast-forward to a later round, keeping the turn pointer consistent
    g.turn_number = 6 * n;
    let me = current_id(&g);
    let me_pos = player_pos(&g, me);
    let other = g.player_order[1];
    let other_pos = player_pos(&g, other);
    g.players[me_pos].state = PlayerState::Root;
    g.players[other_pos].state = PlayerState::WaitForTurn;
    g.has_rolled = false;
    g.players[other_pos].hand = counts(&[(Resource::Wood, 5), (Resource::Brick, 4)]);

    assert_eq!(
        g.make_move(me, Request::RollDice(Some(7)), &mut r),
        Ok(Payload::Rolled(7))
    );
    assert!(matches!(
        g.players[me_pos].state,
        PlayerState::AfterRollingSeven
    ));
    assert_eq!(g.players[other_pos].num_to_discard, 4);

    // the debtor discards part of what is owed
    let discard = vec![Resource::Wood, Resource::Wood, Resource::Brick];
    assert_eq!(
        g.make_move(other, Request::Discard(discard), &mut r),
        Ok(Payload::Null)
    );
    assert_eq!(g.players[other_pos].num_to_discard, 1);
    assert_eq!(g.players[other_pos].hand.wood, 3);
    assert_eq!(g.players[other_pos].hand.brick, 3);

    // naming cards the hand does not hold is refused
    assert_eq!(
        g.make_move(other, Request::Discard(vec![Resource::Ore]), &mut r),
        Err(Error::CannotAfford)
    );
    // naming more cards than owed is refused
    assert_eq!(
        g.make_move(
            other,
            Request::Discard(vec![Resource::Wood, Resource::Brick]),
            &mut r
        ),
        Err(Error::DiscardingTooMany)
    );
}

#[test]
fn bank_trade_exchanges_at_rate() {
    let mut g = new_game(51, &[1, 2], 10);
    let mut r = rng(52);
    run_placement(&mut g, &mut r);
    let n = g.player_order.len() as u64;
    g.turn_number = 2 * n;
    g.has_rolled = true;
    let me = current_id(&g);
    let pos = player_pos(&g, me);
    g.players[pos].state = PlayerState::Root;
    g.players[pos].bank_trade_rates = ResourceCounts::uniform(4);
    g.players[pos].hand = counts(&[(Resource::Wood, 8)]);

    let offer = Trade {
        giving: counts(&[(Resource::Wood, 8)]),
        getting: counts(&[(Resource::Ore, 2)]),
        with: TradeWith::Bank,
    };
    assert_eq!(
        g.make_move(me, Request::OfferTrade(offer), &mut r),
        Ok(Payload::Null)
    );
    assert_eq!(g.players[pos].hand.wood, 0);
    assert_eq!(g.players[pos].hand.ore, 2);

    g.players[pos].hand = counts(&[(Resource::Wood, 7)]);
    let offer = Trade {
        giving: counts(&[(Resource::Wood, 7)]),
        getting: counts(&[(Resource::Ore, 2)]),
        with: TradeWith::Bank,
    };
    assert_eq!(
        g.make_move(me, Request::OfferTrade(offer), &mut r),
        Err(Error::InvalidTrade)
    );
    assert_eq!(g.players[pos].hand.wood, 7);
}

#[test]
fn invalid_actions_leave_the_match_alone() {
    let mut g = new_game(61, &[1, 2, 3], 10);
    let mut r = rng(62);

    // an unknown player cannot move
    assert_eq!(
        g.make_move(999, Request::EndTurn, &mut r),
        Err(Error::PlayerNotFound)
    );

    // a known player with an out-of-catalog action is rejected without
    // any mutation
    let me = current_id(&g);
    let pos = player_pos(&g, me);
    let turn_before = g.turn_number;
    let hand_before = g.players[pos].hand;
    let robber_before = g.robber_index;
    assert_eq!(
        g.make_move(me, Request::EndTurn, &mut r),
        Err(Error::InvalidAction)
    );
    assert_eq!(
        g.make_move(me, Request::BuildCity(Index::new(1, 8)), &mut r),
        Err(Error::InvalidAction)
    );
    assert_eq!(g.turn_number, turn_before);
    assert_eq!(g.players[pos].hand, hand_before);
    assert_eq!(g.robber_index, robber_before);
}

#[test]
fn longest_road_award_transfers() {
    let mut g = new_game(71, &[1, 2], 10);
    let a = g.player_order[0];
    let b = g.player_order[1];
    let a_pos = player_pos(&g, a);
    let b_pos = player_pos(&g, b);

    let a_chain = [(2u16, 7u16), (2, 9), (4, 10), (4, 6), (6, 7), (6, 9)];
    for (x, y) in a_chain {
        let i = Index::new(x, y);
        let rd = *g.board.get_road(&i).expect("road");
        assert!(g
            .board
            .set_road(&i, kcore::road::Road { owner: Some(a), ..rd }));
        g.players[a_pos].roads.push(i);
    }
    assert!(g.recalc_longest_road(a));
    assert_eq!(g.has_longest_road, Some(a));
    assert_eq!(g.players[a_pos].victory_points.public, 2);
    assert_eq!(g.players[a_pos].victory_points.private, 2);

    // a mirrored, longer chain on the far side of the board
    let b_chain = [
        (22u16, 7u16),
        (22, 9),
        (20, 10),
        (20, 6),
        (18, 11),
        (18, 5),
        (18, 7),
        (18, 9),
    ];
    for (x, y) in b_chain {
        let i = Index::new(x, y);
        let rd = *g.board.get_road(&i).expect("road");
        assert!(g
            .board
            .set_road(&i, kcore::road::Road { owner: Some(b), ..rd }));
        g.players[b_pos].roads.push(i);
    }
    assert!(g.recalc_longest_road(b));
    assert_eq!(g.has_longest_road, Some(b));
    assert_eq!(g.players[a_pos].victory_points.public, 0);
    assert_eq!(g.players[a_pos].victory_points.private, 0);
    assert_eq!(g.players[b_pos].victory_points.public, 2);
    assert_eq!(g.players[b_pos].victory_points.private, 2);

    // a shorter contender never dethrones the incumbent
    assert!(!g.recalc_longest_road(a));
    assert_eq!(g.has_longest_road, Some(b));
}

#[test]
fn stealing_moves_one_card() {
    let mut g = new_game(81, &[1, 2], 10);
    let mut r = rng(82);
    let me = current_id(&g);
    let me_pos = player_pos(&g, me);
    let victim = g.player_order[1];
    let victim_pos = player_pos(&g, victim);

    // put a rival settlement next to the robber's hex
    let robber = g.robber_index;
    let mut claimed = None;
    for j in g.board.junctions() {
        let dx = j.index.x as i32 - robber.x as i32;
        let dy = j.index.y as i32 - robber.y as i32;
        let adjacent = [(-3, 0), (-1, 2), (1, 2), (3, 0), (1, -2), (-1, -2)]
            .iter()
            .any(|(ax, ay)| dx == -*ax && dy == -*ay);
        if adjacent {
            let upd = kcore::junction::Junction { owner: Some(victim), ..j };
            assert!(g.board.set_junction(&j.index, upd));
            claimed = Some(j.index);
            break;
        }
    }
    assert!(claimed.is_some(), "robber hex has a junction neighbor");

    g.players[me_pos].state = PlayerState::Stealing;
    g.players[victim_pos].hand = counts(&[(Resource::Wood, 1)]);
    assert_eq!(
        g.make_move(me, Request::StealFrom(victim), &mut r),
        Ok(Payload::Stole(Some(Resource::Wood)))
    );
    assert_eq!(g.players[victim_pos].hand.wood, 0);
    assert_eq!(g.players[me_pos].hand.wood, 1);
    assert!(matches!(g.players[me_pos].state, PlayerState::Root));
}

#[test]
fn development_cards_play_out() {
    let mut g = new_game(91, &[1, 2], 10);
    let mut r = rng(92);
    run_placement(&mut g, &mut r);
    let n = g.player_order.len() as u64;
    g.turn_number = 2 * n;
    g.has_rolled = true;
    let me = current_id(&g);
    let pos = player_pos(&g, me);
    let other = g.player_order[1];
    let other_pos = player_pos(&g, other);
    g.players[pos].state = PlayerState::Root;

    // buying: costs the fixed bundle and adds the drawn card to the hand
    g.players[pos].hand = counts(&[(Resource::Ore, 1), (Resource::Sheep, 1), (Resource::Wheat, 1)]);
    let deck_before = g.dev_cards.len();
    let res = g.make_move(me, Request::BuyDevCard, &mut r);
    assert!(matches!(res, Ok(Payload::Drew(_))));
    assert_eq!(g.dev_cards.len(), deck_before - 1);
    assert_eq!(g.players[pos].hand, ResourceCounts::new());
    assert_eq!(g.players[pos].dev_cards.len(), 1);

    // year of plenty grants the two chosen resources
    g.players[pos].dev_cards.push(DevCardInHand {
        card: DevCard::YearOfPlenty,
        state: DevCardState::CanPlay,
    });
    assert_eq!(
        g.make_move(
            me,
            Request::PlayYearOfPlenty(Resource::Brick, Resource::Ore),
            &mut r
        ),
        Ok(Payload::Null)
    );
    assert_eq!(g.players[pos].hand.brick, 1);
    assert_eq!(g.players[pos].hand.ore, 1);
    assert!(g.players[pos].has_played_dev_card);
    // only one development card play per turn
    g.players[pos].dev_cards.push(DevCardInHand {
        card: DevCard::Monopoly,
        state: DevCardState::CanPlay,
    });
    assert_eq!(
        g.make_move(me, Request::PlayMonopoly(Resource::Wood), &mut r),
        Err(Error::InvalidAction)
    );

    // next turn the monopoly drains every rival's stock of the kind
    g.players[pos].has_played_dev_card = false;
    g.players[other_pos].hand = counts(&[(Resource::Wood, 3), (Resource::Ore, 2)]);
    let wood_before = g.players[pos].hand.wood;
    assert_eq!(
        g.make_move(me, Request::PlayMonopoly(Resource::Wood), &mut r),
        Ok(Payload::Monopolized(3))
    );
    assert_eq!(g.players[other_pos].hand.wood, 0);
    assert_eq!(g.players[other_pos].hand.ore, 2);
    assert_eq!(g.players[pos].hand.wood, wood_before + 3);
}

#[test]
fn end_turn_advances_and_resets() {
    let mut g = new_game(101, &[1, 2, 3], 10);
    let mut r = rng(102);
    run_placement(&mut g, &mut r);
    let me = current_id(&g);
    let pos = player_pos(&g, me);
    g.has_rolled = true;
    g.players[pos].state = PlayerState::Root;
    let t = g.turn_number;
    assert_eq!(g.make_move(me, Request::EndTurn, &mut r), Ok(Payload::Null));
    assert_eq!(g.turn_number, t + 1);
    assert!(!g.has_rolled);
    let next = current_id(&g);
    assert_ne!(next, me);
    let next_pos = player_pos(&g, next);
    assert!(matches!(g.players[next_pos].state, PlayerState::Root));
}

#[test]
fn validity_survives_whole_rounds() {
    let mut g = new_game(121, &[1, 2, 3], 10);
    let mut r = rng(122);
    assert!(g.check_wf());
    run_placement(&mut g, &mut r);
    assert!(g.check_wf());
    let me = current_id(&g);
    assert_eq!(
        g.make_move(me, Request::RollDice(Some(3)), &mut r),
        Ok(Payload::Rolled(3))
    );
    assert_eq!(g.make_move(me, Request::EndTurn, &mut r), Ok(Payload::Null));
    assert!(g.check_wf());
}

#[test]
fn new_game_needs_two_distinct_players() {
    let mut r = rng(111);
    assert!(Game::new(vec![], BoardType::Standard, 10, &mut r).is_none());
    assert!(Game::new(vec![5], BoardType::Standard, 10, &mut r).is_none());
    assert!(Game::new(vec![5, 5, 5], BoardType::Standard, 10, &mut r).is_none());
    let g = Game::new(vec![5, 6, 5], BoardType::Standard, 10, &mut r).expect("two distinct");
    assert_eq!(g.players.len(), 2);
    // the full development deck backs the draw pile
    assert_eq!(g.dev_cards.len(), 25);
    let knights = g
        .dev_cards
        .iter()
        .filter(|c| matches!(c, DevCard::Knight))
        .count();
    assert_eq!(knights, 14);
}
