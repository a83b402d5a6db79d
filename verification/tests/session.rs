use termfold::session::{
    CloseResult, Direction, MAX_PANES_PER_TAB, MAX_TABS, Session, Size, Split, StateError,
};

const SIZE: Size = Size {
    columns: 80,
    rows: 24,
};

#[test]
fn state_transitions_preserve_limits_and_hierarchy() {
    let mut session = Session::new("work".into());
    let mut panes = vec![session.active_pane().unwrap()];
    while panes.len() < MAX_PANES_PER_TAB {
        for pane in panes.clone() {
            session.select_pane(pane);
            panes.push(session.split_active(Split::LeftRight, SIZE).unwrap());
        }
    }
    assert_eq!(session.pane_count(), MAX_PANES_PER_TAB);
    assert_eq!(
        session.split_active(Split::LeftRight, SIZE),
        Err(StateError::PaneLimit)
    );

    while session.tab_count() < MAX_TABS {
        session.create_tab().unwrap();
    }
    assert_eq!(session.create_tab(), Err(StateError::TabLimit));
}

#[test]
fn split_focus_resize_and_close_are_deterministic() {
    let mut session = Session::new("work".into());
    let first = session.active_pane().unwrap();
    let second = session.split_active(Split::LeftRight, SIZE).unwrap();
    assert_eq!(session.focus(Direction::Left, SIZE), Ok(first));

    let before = session.pane_rects(SIZE)[0].1.width;
    session.resize(Direction::Right, SIZE).unwrap();
    assert_eq!(session.pane_rects(SIZE)[0].1.width, before + 1);

    assert_eq!(session.close_active_pane(SIZE), Ok(CloseResult::PaneClosed));
    assert_eq!(session.active_pane(), Some(second));
    assert_eq!(
        session.close_active_pane(SIZE),
        Ok(CloseResult::SessionEmpty)
    );
    assert_eq!(session.active_pane(), None);
}

#[test]
fn failed_split_does_not_change_state() {
    let mut session = Session::new("work".into());
    assert_eq!(
        session.split_active(
            Split::LeftRight,
            Size {
                columns: 2,
                rows: 1,
            },
        ),
        Err(StateError::TooSmall)
    );
    assert_eq!(session.pane_count(), 1);
}

#[test]
fn child_exit_can_close_a_non_active_pane() {
    let mut session = Session::new("work".into());
    let first = session.active_pane().unwrap();
    let second = session.split_active(Split::LeftRight, SIZE).unwrap();
    assert!(session.select_pane(first));

    assert_eq!(
        session.close_pane(second, SIZE),
        Ok(CloseResult::PaneClosed)
    );
    assert_eq!(session.active_pane(), Some(first));
    assert_eq!(session.pane_count(), 1);
}

#[test]
fn a_new_session_can_number_more_panes() {
    let mut session = Session::new("ids".into());
    assert!(session.can_add_pane());
    session.create_tab().unwrap();
    assert!(session.can_add_pane());
}

#[test]
fn stepping_through_every_tab_comes_back() {
    let mut session = Session::new("work".into());
    session.create_tab().unwrap();
    session.create_tab().unwrap();
    session.select_tab(1);
    for _ in 0..session.tab_count() {
        session.next_tab().unwrap();
    }
    assert_eq!(session.active_tab(), Some(1));
    for _ in 0..session.tab_count() {
        session.previous_tab().unwrap();
    }
    assert_eq!(session.active_tab(), Some(1));
    session.next_tab().unwrap();
    session.previous_tab().unwrap();
    assert_eq!(session.active_tab(), Some(1));
    session.previous_tab().unwrap();
    assert_eq!(session.active_tab(), Some(0));
    session.previous_tab().unwrap();
    assert_eq!(session.active_tab(), Some(2));
}

#[test]
fn pane_numbers_are_handed_out_in_turn_and_never_reused() {
    let mut session = Session::new("work".into());
    assert_eq!(session.active_pane().unwrap().get(), 1);
    let second = session.split_active(Split::LeftRight, SIZE).unwrap();
    assert_eq!(second.get(), 2);
    session.close_active_pane(SIZE).unwrap();
    let third = session.create_tab().unwrap();
    assert_eq!(third.get(), 3);
    let fourth = session.split_active(Split::TopBottom, SIZE).unwrap();
    assert_eq!(fourth.get(), 4);
}

#[test]
fn pane_rectangles_lie_on_the_screen_and_apart() {
    let mut session = Session::new("work".into());
    session.split_active(Split::LeftRight, SIZE).unwrap();
    session.split_active(Split::TopBottom, SIZE).unwrap();
    let rects = session.pane_rects(SIZE);
    assert_eq!(rects.len(), session.pane_count());
    for (_, r) in &rects {
        assert!(r.x + r.width <= SIZE.columns && r.y + r.height <= SIZE.rows);
    }
    for (i, (_, a)) in rects.iter().enumerate() {
        for (_, b) in rects.iter().skip(i + 1) {
            let apart = a.x + a.width <= b.x
                || b.x + b.width <= a.x
                || a.y + a.height <= b.y
                || b.y + b.height <= a.y;
            assert!(apart);
        }
    }
}
