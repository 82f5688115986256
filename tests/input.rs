use portable_music_player::input::{Button, InputEvent, InputMultiplexer, INPUT_CHANNEL_CAPACITY};

fn buttons() -> Vec<Button> {
    vec![
        Button::new(InputEvent::Up),
        Button::new(InputEvent::Down),
        Button::new(InputEvent::Enter),
        Button::new(InputEvent::Back),
        Button::new(InputEvent::IncrementVolume),
        Button::new(InputEvent::DecrementVolume),
    ]
}

#[test]
fn button_reports_its_event() {
    let b = Button::new(InputEvent::Back);
    assert_eq!(b.poll(), InputEvent::Back);
}

#[test]
fn separated_edges_arrive_once_each_in_firing_order() {
    let mut m = InputMultiplexer::new(&buttons());
    assert_eq!(m.sources(), 6);
    let fired = [2usize, 0, 5, 0, 3];
    for &s in &fired {
        m.edge(s);
        assert!(m.step().is_some());
    }
    let mut got = Vec::new();
    while let Some(e) = m.receive() {
        got.push(e);
    }
    assert_eq!(
        got,
        vec![
            InputEvent::Enter,
            InputEvent::Up,
            InputEvent::DecrementVolume,
            InputEvent::Up,
            InputEvent::Back
        ]
    );
    assert_eq!(m.step(), None);
}

#[test]
fn simultaneous_edges_resolve_in_declaration_order() {
    let mut m = InputMultiplexer::new(&buttons());
    m.edge(4);
    m.edge(1);
    assert_eq!(m.step(), Some(InputEvent::Down));
    assert_eq!(m.step(), Some(InputEvent::IncrementVolume));
    assert_eq!(m.step(), None);
    assert_eq!(m.receive(), Some(InputEvent::Down));
    assert_eq!(m.receive(), Some(InputEvent::IncrementVolume));
    assert_eq!(m.receive(), None);
}

#[test]
fn full_queue_suspends_pushes_until_drained() {
    let mut m = InputMultiplexer::new(&buttons());
    for _ in 0..INPUT_CHANNEL_CAPACITY {
        m.edge(0);
        assert_eq!(m.step(), Some(InputEvent::Up));
    }
    assert_eq!(m.queued(), INPUT_CHANNEL_CAPACITY);
    // Two more edges: the first push suspends, the second edge waits.
    m.edge(2);
    assert_eq!(m.step(), None);
    assert!(m.is_suspended());
    m.edge(3);
    assert_eq!(m.step(), None);
    assert!(m.is_suspended());
    assert_eq!(m.queued(), INPUT_CHANNEL_CAPACITY);
    // One slot drained: the held push completes, the next one suspends.
    assert_eq!(m.receive(), Some(InputEvent::Up));
    assert_eq!(m.step(), Some(InputEvent::Enter));
    assert_eq!(m.step(), None);
    assert!(m.is_suspended());
    // A second slot drained: the last push completes.
    assert_eq!(m.receive(), Some(InputEvent::Up));
    assert_eq!(m.step(), Some(InputEvent::Back));
    assert!(!m.is_suspended());
    let mut got = Vec::new();
    while let Some(e) = m.receive() {
        got.push(e);
    }
    let mut expected = vec![InputEvent::Up; INPUT_CHANNEL_CAPACITY - 2];
    expected.push(InputEvent::Enter);
    expected.push(InputEvent::Back);
    assert_eq!(got, expected);
}

#[test]
fn receive_on_empty_queue_returns_none() {
    let mut m = InputMultiplexer::new(&buttons());
    assert_eq!(m.receive(), None);
    assert_eq!(m.step(), None);
}

#[test]
fn edges_interleaved_with_receives_arrive_in_order() {
    let mut m = InputMultiplexer::new(&buttons());
    let mut got = Vec::new();
    for (k, &s) in [1usize, 4, 4, 0, 2, 5, 3, 1, 0, 2, 2].iter().enumerate() {
        m.edge(s);
        m.step();
        if k % 3 == 2 {
            got.extend(m.receive());
            m.step();
        }
    }
    while let Some(e) = m.receive() {
        got.push(e);
        m.step();
    }
    assert_eq!(
        got,
        vec![
            InputEvent::Down,
            InputEvent::IncrementVolume,
            InputEvent::IncrementVolume,
            InputEvent::Up,
            InputEvent::Enter,
            InputEvent::DecrementVolume,
            InputEvent::Back,
            InputEvent::Down,
            InputEvent::Up,
            InputEvent::Enter,
            InputEvent::Enter
        ]
    );
}
