use rsim::event::{ComponentId, EventId, EventIdSource};
use rsim::manager::SimManager;
use rsim::port::{Delivery, Rx, RxType};
use rsim::sim::{Callback, Sim, SimError};

fn comb_count(calls: &[Callback]) -> usize {
    calls.iter().filter(|c| **c == Callback::OnComb).count()
}

#[test]
fn no_liveness_ends_after_one_empty_pass() {
    let mut sim: Sim<u32> = Sim::new();
    let a = sim.add_component(true, false);
    let b = sim.add_component(false, false);
    let p = sim.connect(a, b, 0).unwrap();
    sim.init_component(a).unwrap();
    sim.init_component(b).unwrap();
    sim.send(p, 9).unwrap();
    let mut passes = 0;
    let mut events = 0;
    loop {
        passes += 1;
        if !sim.begin_pass().unwrap() {
            break;
        }
        for c in [a, b] {
            events += sim.poll_component(c).unwrap().len();
        }
        if sim.is_quiescent() {
            break;
        }
    }
    assert_eq!(passes, 1);
    assert_eq!(events, 0);
    assert!(sim.acked().is_empty());
    assert!(sim.is_quiescent());
}

#[test]
fn one_send_one_observation_one_ack() {
    let mut sim: Sim<u32> = Sim::new();
    let prod = sim.add_component(false, true);
    let cons = sim.add_component(false, false);
    let p = sim.connect(prod, cons, 0).unwrap();
    sim.init_component(prod).unwrap();
    sim.init_component(cons).unwrap();
    let ev = sim.send(p, 42).unwrap();
    assert!(sim.begin_pass().unwrap());
    assert!(sim.poll_component(prod).unwrap().is_empty());
    let calls = sim.poll_component(cons).unwrap();
    assert_eq!(calls, vec![Callback::OnComb]);
    assert_eq!(sim.current(p), 42);
    assert_eq!(sim.acked().clone(), vec![ev]);
    assert!(sim.is_quiescent());
    assert!(sim.begin_pass().unwrap());
    assert!(sim.poll_component(prod).unwrap().is_empty());
    assert!(sim.poll_component(cons).unwrap().is_empty());
    assert_eq!(sim.acked().len(), 1);
}

#[test]
fn value_sent_is_invisible_until_next_boundary() {
    let mut sim: Sim<u32> = Sim::new();
    let prod = sim.add_component(false, true);
    let cons = sim.add_component(false, false);
    let p = sim.connect(prod, cons, 5).unwrap();
    sim.init_component(prod).unwrap();
    assert!(sim.begin_pass().unwrap());
    sim.send(p, 6).unwrap();
    assert!(sim.poll_component(cons).unwrap().is_empty());
    assert_eq!(sim.current(p), 5);
    assert!(!sim.is_quiescent());
    assert!(sim.begin_pass().unwrap());
    assert_eq!(sim.previous(p), 5);
    assert_eq!(sim.poll_component(cons).unwrap(), vec![Callback::OnComb]);
    assert_eq!(sim.current(p), 6);
    assert_eq!(sim.previous(p), 5);
    assert!(sim.begin_pass().unwrap());
    assert_eq!(sim.previous(p), 6);
}

#[test]
fn try_recv_twice_reports_new_value_once() {
    let mut rx: Rx<u8> = Rx::new(0);
    rx.deliver(Delivery { event: EventId { id: 3 }, value: 7 });
    assert_eq!(rx.try_recv(), RxType::NewValue);
    assert_eq!(rx.try_recv(), RxType::Repeated);
    assert_eq!(rx.value(), 7);
    assert_eq!(rx.ack(), Some(EventId { id: 3 }));
    assert_eq!(rx.ack(), None);
    assert_eq!(rx.try_recv(), RxType::NoValue);
}

#[test]
fn unacked_value_holds_back_the_next() {
    let mut rx: Rx<u8> = Rx::new(0);
    rx.deliver(Delivery { event: EventId { id: 1 }, value: 1 });
    assert_eq!(rx.try_recv(), RxType::NewValue);
    rx.deliver(Delivery { event: EventId { id: 2 }, value: 2 });
    assert_eq!(rx.try_recv(), RxType::Repeated);
    assert_eq!(rx.value(), 1);
    assert_eq!(rx.ack(), Some(EventId { id: 1 }));
    assert_eq!(rx.try_recv(), RxType::NewValue);
    assert_eq!(rx.value(), 2);
    assert_eq!(rx.ack(), Some(EventId { id: 2 }));
}

#[test]
fn newest_arrival_replaces_untaken_one() {
    let mut rx: Rx<u8> = Rx::new(0);
    rx.deliver(Delivery { event: EventId { id: 1 }, value: 1 });
    rx.deliver(Delivery { event: EventId { id: 2 }, value: 2 });
    assert_eq!(rx.try_recv(), RxType::NewValue);
    assert_eq!(rx.value(), 2);
    assert_eq!(rx.ack(), Some(EventId { id: 2 }));
}

#[test]
fn reset_then_recv_reports_no_value() {
    let mut rx: Rx<u8> = Rx::new(4);
    assert_eq!(rx.try_recv(), RxType::NoValue);
    rx.deliver(Delivery { event: EventId { id: 1 }, value: 9 });
    assert_eq!(rx.try_recv(), RxType::NewValue);
    rx.shift();
    assert_eq!(rx.previous(), 9);
    rx.deliver(Delivery { event: EventId { id: 2 }, value: 10 });
    rx.reset();
    assert_eq!(rx.try_recv(), RxType::NoValue);
    assert_eq!(rx.value(), 4);
    assert_eq!(rx.previous(), 4);
    assert_eq!(rx.ack(), None);
}

#[test]
fn reset_component_clears_its_inputs_only() {
    let mut sim: Sim<u32> = Sim::new();
    let a = sim.add_component(false, true);
    let b = sim.add_component(false, false);
    let ab = sim.connect(a, b, 1).unwrap();
    let ba = sim.connect(b, a, 2).unwrap();
    sim.init_component(a).unwrap();
    sim.send(ab, 10).unwrap();
    sim.send(ba, 20).unwrap();
    assert!(sim.begin_pass().unwrap());
    sim.poll_component(a).unwrap();
    sim.poll_component(b).unwrap();
    assert_eq!(sim.current(ab), 10);
    assert_eq!(sim.current(ba), 20);
    sim.reset_component(b).unwrap();
    assert_eq!(sim.current(ab), 1);
    assert_eq!(sim.previous(ab), 1);
    assert_eq!(sim.current(ba), 20);
    assert_eq!(sim.reset_component(ComponentId { id: 2 }), Err(SimError::UnknownComponent));
}

#[test]
fn clock_callback_precedes_comb() {
    let mut sim: Sim<u32> = Sim::new();
    let src = sim.add_component(false, true);
    let reg = sim.add_component(true, false);
    let p = sim.connect(src, reg, 0).unwrap();
    sim.init_component(src).unwrap();
    sim.init_component(reg).unwrap();
    assert!(sim.manager().is_clocked(reg));
    let ev = sim.send(p, 1).unwrap();
    assert!(sim.begin_pass().unwrap());
    let calls = sim.poll_component(reg).unwrap();
    assert_eq!(calls, vec![Callback::OnClock, Callback::OnComb, Callback::OnComb]);
    let acked = sim.acked().clone();
    assert_eq!(acked.len(), 2);
    assert_eq!(acked[0], EventId { id: 1 });
    assert_eq!(acked[1], ev);
}

#[test]
fn ticks_go_to_every_clock_with_fresh_ids() {
    let mut sim: Sim<u32> = Sim::new();
    let a = sim.add_component(true, true);
    let b = sim.add_component(true, false);
    let c = sim.add_component(false, false);
    sim.init_component(b).unwrap();
    sim.init_component(a).unwrap();
    sim.init_component(c).unwrap();
    assert_eq!(sim.manager().clock_count(), 2);
    assert_eq!(sim.manager().clock_at(0), b);
    assert!(sim.begin_pass().unwrap());
    assert!(!sim.is_quiescent());
    assert_eq!(sim.poll_component(a).unwrap(), vec![Callback::OnClock, Callback::OnComb]);
    assert_eq!(sim.poll_component(b).unwrap(), vec![Callback::OnClock, Callback::OnComb]);
    assert!(sim.poll_component(c).unwrap().is_empty());
    assert_eq!(sim.acked().clone(), vec![EventId { id: 1 }, EventId { id: 0 }]);
    assert!(sim.is_quiescent());
    assert!(sim.begin_pass().unwrap());
    assert_eq!(sim.poll_component(b).unwrap(), vec![Callback::OnClock, Callback::OnComb]);
    assert_eq!(sim.acked()[2], EventId { id: 2 });
}

#[test]
fn feedback_cycle_is_bounded_per_pass() {
    let mut sim: Sim<u32> = Sim::new();
    let a = sim.add_component(false, true);
    let b = sim.add_component(false, false);
    let ab = sim.connect(a, b, 0).unwrap();
    let ba = sim.connect(b, a, 0).unwrap();
    sim.init_component(a).unwrap();
    sim.init_component(b).unwrap();
    sim.send(ab, 1).unwrap();
    let limit = 6;
    let mut passes = 0;
    loop {
        passes += 1;
        assert!(passes <= 20);
        if !sim.begin_pass().unwrap() {
            break;
        }
        for (c, input, output) in [(a, ba, ab), (b, ab, ba)] {
            let calls = sim.poll_component(c).unwrap();
            assert!(comb_count(&calls) <= 1);
            assert!(sim.poll_component(c).unwrap().is_empty());
            for _ in 0..comb_count(&calls) {
                let v = sim.current(input);
                if v < limit {
                    sim.send(output, v + 1).unwrap();
                }
            }
        }
        if sim.is_quiescent() {
            break;
        }
    }
    assert_eq!(sim.current(ab), 5);
    assert_eq!(sim.current(ba), 6);
    assert_eq!(passes, 6);
    assert_eq!(sim.acked().len(), 6);
}

#[test]
fn primary_sender_keeps_simulation_alive_until_acked() {
    let mut sim: Sim<u32> = Sim::new();
    let stim = sim.add_component(false, true);
    let sink = sim.add_component(false, false);
    let p = sim.connect(stim, sink, 0).unwrap();
    sim.init_component(stim).unwrap();
    sim.init_component(sink).unwrap();
    let mut sent = None;
    let mut passes = 0;
    let mut ended_after = None;
    loop {
        passes += 1;
        assert!(passes <= 10);
        if !sim.begin_pass().unwrap() {
            break;
        }
        sim.poll_component(stim).unwrap();
        if sent.is_none() {
            sent = Some(sim.send(p, 77).unwrap());
        }
        sim.poll_component(sink).unwrap();
        if sim.is_quiescent() {
            ended_after = Some(passes);
            break;
        }
    }
    assert_eq!(ended_after, Some(2));
    assert_eq!(sim.current(p), 77);
    assert_eq!(sim.acked().clone(), vec![sent.unwrap()]);
}

#[test]
fn unknown_component_and_port_are_rejected() {
    let mut sim: Sim<u32> = Sim::new();
    let a = sim.add_component(false, false);
    let missing = ComponentId { id: 5 };
    assert_eq!(sim.connect(a, missing, 0), Err(SimError::UnknownComponent));
    assert_eq!(sim.connect(missing, a, 0), Err(SimError::UnknownComponent));
    assert_eq!(sim.init_component(missing), Err(SimError::UnknownComponent));
    assert_eq!(sim.poll_component(missing), Err(SimError::UnknownComponent));
    assert_eq!(sim.send(0, 1), Err(SimError::UnknownPort));
    assert_eq!(sim.port_len(), 0);
    assert_eq!(sim.component_len(), 1);
}

#[test]
fn liveness_registration_is_idempotent() {
    let mut m = SimManager::new();
    assert!(!m.keeps_alive());
    let id = ComponentId { id: 4 };
    m.register_do_not_end(id);
    m.register_do_not_end(id);
    m.register_clock_tick(id);
    m.register_clock_tick(id);
    assert!(m.keeps_alive());
    assert!(m.is_do_not_end(id));
    assert!(!m.is_do_not_end(ComponentId { id: 5 }));
    assert_eq!(m.clock_count(), 1);
    assert_eq!(m.clock_at(0), id);
}

#[test]
fn init_twice_registers_once() {
    let mut sim: Sim<u32> = Sim::new();
    let a = sim.add_component(true, true);
    sim.init_component(a).unwrap();
    sim.init_component(a).unwrap();
    assert_eq!(sim.manager().clock_count(), 1);
    assert!(sim.manager().is_do_not_end(a));
    assert!(sim.begin_pass().unwrap());
    assert_eq!(sim.poll_component(a).unwrap(), vec![Callback::OnClock, Callback::OnComb]);
    assert_eq!(sim.acked().len(), 1);
}

#[test]
fn event_ids_are_minted_in_order() {
    let mut src = EventIdSource::new();
    assert_eq!(src.mint(), EventId { id: 0 });
    assert_eq!(src.mint(), EventId { id: 1 });
    assert_eq!(src.next, 2);
    let full = EventIdSource { next: u64::MAX };
    assert!(!full.can_mint());
}
