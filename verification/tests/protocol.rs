use wasmdome_protocol::codec;
use wasmdome_protocol::commands::{
    arena_control_subject, ArenaControlCommand, CreateMatch, MatchState, MechCommand,
    MechQueryResponse, TakeTurn, TakeTurnResponse,
};
use wasmdome_protocol::coordination::{validate_create, CreateMatchError, MatchCoordinator};
use wasmdome_protocol::events::{
    events_subject, ArenaEvent, ConnectionTracker, EndCause, GameEvent, MatchEvent,
};
use wasmdome_protocol::scheduler::{MatchIdentifier, MatchScheduleEntry, StoredMatch};
use wasmdome_protocol::tools::{
    CredentialsRequest, CredentialsResponse, TokenIssuer, TokenRequest,
};
use wasmdome_protocol::{MechInfo, OP_TAKE_TURN};

fn sample_create_match() -> CreateMatch {
    CreateMatch {
        match_id: "abc".to_string(),
        actors: vec!["a".to_string(), "b".to_string()],
        board_height: 10,
        board_width: 12,
        max_turns: 2,
        aps_per_turn: 4,
    }
}

#[test]
fn subject_public_is_fixed() {
    assert_eq!(events_subject(None), "wasmdome.public.arena.events");
}

#[test]
fn subject_for_match_interpolates_id() {
    assert_eq!(events_subject(Some("abc")), "wasmdome.match.abc.events");
}

#[test]
fn subjects_of_distinct_matches_differ() {
    assert_ne!(events_subject(Some("m1")), events_subject(Some("m2")));
    assert_ne!(events_subject(Some("a")), events_subject(None));
}

#[test]
fn control_subject_and_operation_name() {
    assert_eq!(arena_control_subject(), "wasmdome.internal.arena.control");
    assert_eq!(OP_TAKE_TURN, "wdTakeTurn");
}

#[test]
fn round_trip_mech_info() {
    let m = MechInfo {
        name: "Boylur Plait".to_string(),
        avatar: "avatar-1".to_string(),
        team: "boylur".to_string(),
        id: "mech-7".to_string(),
    };
    let bytes = codec::encode_mech_info(&m);
    assert_eq!(codec::decode_mech_info(&bytes), Some(m));
}

#[test]
fn round_trip_take_turn() {
    let t = TakeTurn {
        actor: "m1".to_string(),
        match_id: "abc".to_string(),
        turn: 3,
        state: MatchState { payload: vec![9, 8, 7, 6] },
    };
    let bytes = codec::encode_take_turn(&t);
    assert_eq!(codec::decode_take_turn(&bytes), Some(t));
}

#[test]
fn round_trip_take_turn_response() {
    let r = TakeTurnResponse {
        commands: vec![
            MechCommand { payload: vec![1] },
            MechCommand { payload: vec![] },
            MechCommand { payload: vec![255, 0, 127] },
        ],
    };
    let bytes = codec::encode_take_turn_response(&r);
    assert_eq!(codec::decode_take_turn_response(&bytes), Some(r));
}

#[test]
fn round_trip_take_turn_response_empty() {
    let r = TakeTurnResponse { commands: vec![] };
    let bytes = codec::encode_take_turn_response(&r);
    assert_eq!(codec::decode_take_turn_response(&bytes), Some(r));
}

#[test]
fn round_trip_create_match() {
    let cm = sample_create_match();
    let bytes = codec::encode_create_match(&cm);
    assert_eq!(codec::decode_create_match(&bytes), Some(cm));
}

#[test]
fn round_trip_arena_control_commands() {
    let start = ArenaControlCommand::StartMatch(sample_create_match());
    let bytes = codec::encode_arena_control_command(&start);
    assert_eq!(codec::decode_arena_control_command(&bytes), Some(start));

    let query = ArenaControlCommand::QueryMechs;
    let bytes = codec::encode_arena_control_command(&query);
    assert_eq!(codec::decode_arena_control_command(&bytes), Some(query));
}

#[test]
fn round_trip_arena_events() {
    let events = vec![
        ArenaEvent::MechConnected {
            actor: "m1".to_string(),
            name: "Mech One".to_string(),
            avatar: "av".to_string(),
            team: "red".to_string(),
            time: 1_600_000_000,
        },
        ArenaEvent::MechDisconnected { actor: "m1".to_string(), time: 1_600_000_100 },
        ArenaEvent::MatchStarted {
            match_id: "abc".to_string(),
            actors: vec!["m1".to_string(), "m2".to_string()],
            board_height: 20,
            board_width: 20,
            start_time: 1_600_000_200,
        },
        ArenaEvent::MatchCompleted {
            match_id: "abc".to_string(),
            cause: EndCause::MaxTurnsCompleted {
                survivors: vec!["m1".to_string(), "m2".to_string()],
            },
            time: 1_600_000_300,
        },
        ArenaEvent::MatchCompleted {
            match_id: "xyz".to_string(),
            cause: EndCause::MechVictory("m2".to_string()),
            time: -5,
        },
    ];
    for ev in events {
        let bytes = codec::encode_arena_event(&ev);
        assert_eq!(codec::decode_arena_event(&bytes), Some(ev));
    }
}

#[test]
fn round_trip_match_event() {
    let ev = MatchEvent::TurnEvent {
        actor: "m2".to_string(),
        match_id: "abc".to_string(),
        turn: 7,
        turn_event: GameEvent { payload: vec![3, 1, 4, 1, 5] },
    };
    let bytes = codec::encode_match_event(&ev);
    assert_eq!(codec::decode_match_event(&bytes), Some(ev));
}

#[test]
fn round_trip_mech_query_response() {
    let r = MechQueryResponse {
        mechs: vec![
            MechInfo {
                name: "A".to_string(),
                avatar: "a".to_string(),
                team: "t1".to_string(),
                id: "1".to_string(),
            },
            MechInfo {
                name: "B".to_string(),
                avatar: "b".to_string(),
                team: "t2".to_string(),
                id: "2".to_string(),
            },
        ],
    };
    let bytes = codec::encode_mech_query_response(&r);
    assert_eq!(codec::decode_mech_query_response(&bytes), Some(r));
}

#[test]
fn round_trip_credential_messages() {
    let t = TokenRequest { account_key: "ACCOUNTKEY".to_string() };
    let bytes = codec::encode_token_request(&t);
    assert_eq!(codec::decode_token_request(&bytes), Some(t));

    let c = CredentialsRequest {
        account_key: "ACCOUNTKEY".to_string(),
        token: "one-time".to_string(),
    };
    let bytes = codec::encode_credentials_request(&c);
    assert_eq!(codec::decode_credentials_request(&bytes), Some(c));

    let valid = CredentialsResponse::Valid {
        user_jwt: "jwt.here".to_string(),
        user_secret: "user-secret-value".to_string(),
    };
    let bytes = codec::encode_credentials_response(&valid);
    assert_eq!(codec::decode_credentials_response(&bytes), Some(valid));

    let err = CredentialsResponse::Error("no such account".to_string());
    let bytes = codec::encode_credentials_response(&err);
    assert_eq!(codec::decode_credentials_response(&bytes), Some(err));
}

#[test]
fn round_trip_scheduler_records() {
    let entry = MatchScheduleEntry {
        max_actors: 4,
        board_height: 32,
        board_width: 32,
        max_turns: 100,
        match_start: 1_700_000_000,
    };
    let bytes = codec::encode_schedule_entry(&entry);
    assert_eq!(codec::decode_schedule_entry(&bytes), Some(entry.clone()));

    let id = MatchIdentifier { match_id: "sched-1".to_string() };
    let bytes = codec::encode_match_identifier(&id);
    assert_eq!(codec::decode_match_identifier(&bytes), Some(id));

    let stored = StoredMatch { match_id: "sched-1".to_string(), entry, aps_per_turn: 4 };
    let bytes = codec::encode_stored_match(&stored);
    assert_eq!(codec::decode_stored_match(&bytes), Some(stored));
}

#[test]
fn round_trip_unicode_and_empty_strings() {
    let m = MechInfo {
        name: "\u{1F916} m\u{e9}cha".to_string(),
        avatar: String::new(),
        team: "\u{65e5}\u{672c}".to_string(),
        id: "id".to_string(),
    };
    let bytes = codec::encode_mech_info(&m);
    assert_eq!(codec::decode_mech_info(&bytes), Some(m));
}

#[test]
fn round_trip_negative_timestamp() {
    let ev = ArenaEvent::MechDisconnected { actor: "m".to_string(), time: -1_000_000 };
    let bytes = codec::encode_arena_event(&ev);
    assert_eq!(codec::decode_arena_event(&bytes), Some(ev));
}

#[test]
fn decode_rejects_unknown_tag() {
    let ev = ArenaEvent::MechDisconnected { actor: "m".to_string(), time: 0 };
    let mut bytes = codec::encode_arena_event(&ev);
    bytes[0] = 200;
    assert_eq!(codec::decode_arena_event(&bytes), None);

    let cmd = ArenaControlCommand::QueryMechs;
    let mut bytes = codec::encode_arena_control_command(&cmd);
    bytes[0] = 9;
    assert_eq!(codec::decode_arena_control_command(&bytes), None);
}

#[test]
fn decode_rejects_truncated_and_trailing_input() {
    let cm = sample_create_match();
    let bytes = codec::encode_create_match(&cm);
    let truncated = bytes[..bytes.len() - 1].to_vec();
    assert_eq!(codec::decode_create_match(&truncated), None);
    let mut trailing = bytes.clone();
    trailing.push(0);
    assert_eq!(codec::decode_create_match(&trailing), None);
    assert_eq!(codec::decode_create_match(&Vec::new()), None);
}

#[test]
fn validation_accepts_good_create_match() {
    let cm = sample_create_match();
    assert_eq!(validate_create(&cm, &vec![]), Ok(()));
}

#[test]
fn zero_board_height_is_rejected_before_any_event() {
    let mut cm = sample_create_match();
    cm.board_height = 0;
    assert_eq!(validate_create(&cm, &vec![]), Err(CreateMatchError::ZeroBoardHeight));
    // starting the match also fails, so no MatchStarted event exists at all
    assert!(MatchCoordinator::new(&cm, &vec![], 0).is_err());
}

#[test]
fn each_validation_error_has_an_input() {
    let cm = sample_create_match();

    let active = vec!["abc".to_string()];
    assert_eq!(validate_create(&cm, &active), Err(CreateMatchError::DuplicateMatchId));

    let mut no_actors = cm.clone();
    no_actors.actors = vec![];
    assert_eq!(validate_create(&no_actors, &vec![]), Err(CreateMatchError::EmptyActors));

    let mut dup = cm.clone();
    dup.actors = vec!["a".to_string(), "a".to_string()];
    assert_eq!(validate_create(&dup, &vec![]), Err(CreateMatchError::DuplicateActor));

    let mut w = cm.clone();
    w.board_width = 0;
    assert_eq!(validate_create(&w, &vec![]), Err(CreateMatchError::ZeroBoardWidth));

    let mut t = cm.clone();
    t.max_turns = 0;
    assert_eq!(validate_create(&t, &vec![]), Err(CreateMatchError::ZeroMaxTurns));

    let mut a = cm.clone();
    a.aps_per_turn = 0;
    assert_eq!(validate_create(&a, &vec![]), Err(CreateMatchError::ZeroApsPerTurn));
}

#[test]
fn coordinator_emits_round_robin_schedule_then_completes() {
    let cm = sample_create_match();
    let (mut c, started) = MatchCoordinator::new(&cm, &vec![], 42).unwrap();
    match started {
        ArenaEvent::MatchStarted { match_id, actors, board_height, board_width, start_time } => {
            assert_eq!(match_id, "abc");
            assert_eq!(actors, vec!["a".to_string(), "b".to_string()]);
            assert_eq!(board_height, 10);
            assert_eq!(board_width, 12);
            assert_eq!(start_time, 42);
        }
        other => panic!("expected MatchStarted, got {:?}", other),
    }

    let mut seen: Vec<(String, u32)> = Vec::new();
    while let Some(tt) = c.next_take_turn(MatchState { payload: vec![] }) {
        assert_eq!(tt.match_id, "abc");
        let ev = c.record_turn(GameEvent { payload: vec![1] });
        match ev {
            MatchEvent::TurnEvent { actor, match_id, turn, .. } => {
                assert_eq!(match_id, "abc");
                assert_eq!(actor, tt.actor);
                assert_eq!(turn, tt.turn);
                seen.push((actor, turn));
            }
        }
    }
    assert_eq!(
        seen,
        vec![
            ("a".to_string(), 1),
            ("b".to_string(), 1),
            ("a".to_string(), 2),
            ("b".to_string(), 2),
        ]
    );

    // exactly one completion event follows; no further turn exists
    let done = c.complete(EndCause::MaxTurnsCompleted { survivors: vec!["a".to_string()] }, 99);
    match done {
        ArenaEvent::MatchCompleted { match_id, time, .. } => {
            assert_eq!(match_id, "abc");
            assert_eq!(time, 99);
        }
        other => panic!("expected MatchCompleted, got {:?}", other),
    }
    assert!(c.next_take_turn(MatchState { payload: vec![] }).is_none());
}

#[test]
fn take_turn_carries_state_and_current_turn() {
    let cm = sample_create_match();
    let (c, _) = MatchCoordinator::new(&cm, &vec![], 0).unwrap();
    let tt = c.next_take_turn(MatchState { payload: vec![5, 5] }).unwrap();
    assert_eq!(tt.actor, "a");
    assert_eq!(tt.turn, 1);
    assert_eq!(tt.state, MatchState { payload: vec![5, 5] });
}

#[test]
fn connection_events_alternate_per_actor() {
    let mut tracker = ConnectionTracker::new();
    let first = tracker.mech_connected(
        "m1".to_string(),
        "Mech One".to_string(),
        "av".to_string(),
        "red".to_string(),
        1,
    );
    assert!(matches!(first, Some(ArenaEvent::MechConnected { .. })));

    // a second connection without a disconnection emits nothing
    let again = tracker.mech_connected(
        "m1".to_string(),
        "Mech One".to_string(),
        "av".to_string(),
        "red".to_string(),
        2,
    );
    assert!(again.is_none());

    let down = tracker.mech_disconnected("m1".to_string(), 3);
    assert!(matches!(down, Some(ArenaEvent::MechDisconnected { .. })));

    // a second disconnection in a row emits nothing
    assert!(tracker.mech_disconnected("m1".to_string(), 4).is_none());

    // and a reconnection is possible afterwards
    let back = tracker.mech_connected(
        "m1".to_string(),
        "Mech One".to_string(),
        "av".to_string(),
        "red".to_string(),
        5,
    );
    assert!(matches!(back, Some(ArenaEvent::MechConnected { .. })));

    // disconnecting an unknown actor emits nothing
    assert!(tracker.mech_disconnected("ghost".to_string(), 6).is_none());
}

#[test]
fn redeemed_token_is_never_valid_again() {
    let mut issuer = TokenIssuer::new();
    issuer.issue(&TokenRequest { account_key: "ACC".to_string() }, "tok-1".to_string());
    let req = CredentialsRequest { account_key: "ACC".to_string(), token: "tok-1".to_string() };

    let first = issuer.redeem(&req, "jwt-1".to_string(), "sec-1".to_string());
    assert_eq!(
        first,
        CredentialsResponse::Valid {
            user_jwt: "jwt-1".to_string(),
            user_secret: "sec-1".to_string()
        }
    );

    let replay = issuer.redeem(&req, "jwt-2".to_string(), "sec-2".to_string());
    assert_eq!(replay, CredentialsResponse::Error("token already redeemed".to_string()));

    let unknown = CredentialsRequest { account_key: "ACC".to_string(), token: "other".to_string() };
    let denied = issuer.redeem(&unknown, "jwt-3".to_string(), "sec-3".to_string());
    assert_eq!(denied, CredentialsResponse::Error("unknown account or token".to_string()));
}

#[test]
fn mismatched_account_key_is_rejected() {
    let mut issuer = TokenIssuer::new();
    issuer.issue(&TokenRequest { account_key: "ACC".to_string() }, "tok-1".to_string());
    let wrong = CredentialsRequest { account_key: "OTHER".to_string(), token: "tok-1".to_string() };
    let denied = issuer.redeem(&wrong, "jwt".to_string(), "sec".to_string());
    assert_eq!(denied, CredentialsResponse::Error("unknown account or token".to_string()));
}

#[test]
fn schedule_entry_is_due_once_started() {
    let entry = MatchScheduleEntry {
        max_actors: 2,
        board_height: 10,
        board_width: 10,
        max_turns: 5,
        match_start: 1_000,
    };
    assert!(!entry.is_due(999));
    assert!(entry.is_due(1_000));
    assert!(entry.is_due(1_001));
}
