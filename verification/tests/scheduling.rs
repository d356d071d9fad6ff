//! The scheduler and the process tables.
use kernel_task::process_table;
use kernel_task::process_table::ProcessRef;
use kernel_task::unfair::{
    address_of_stack, address_of_trapframe, AddressSpace, ExecutionState, Pick, Place,
    ProcessAddressRegion, ProcessHealth, ProcessLayout, ProcessTable, ThreadCell, UnfairContext,
    UnfairScheduler, QUANTUM, THREAD_STACK_SIZE,
};

const TOP: u64 = 0x7fff_ffff;
const STACK: u64 = 0x4000_0000;
const HEAP: u64 = 0x10_0000;

fn at(process: usize, thread: usize) -> Place {
    Place { process, thread }
}

fn table_of(processes: usize) -> ProcessTable {
    let mut table = ProcessTable::new();
    for _ in 0..processes {
        table.add(None, TOP, STACK, HEAP);
    }
    table
}

#[test]
fn layout_tells_regions_apart() {
    let layout = ProcessLayout::new(0x7fff_f000, STACK, HEAP);
    assert_eq!(
        layout.is_address_in(5, AddressSpace::Invalid),
        ProcessAddressRegion::Invalid
    );
    assert_eq!(
        layout.is_address_in(HEAP - 1, AddressSpace::User),
        ProcessAddressRegion::Program
    );
    assert_eq!(
        layout.is_address_in(HEAP, AddressSpace::User),
        ProcessAddressRegion::Heap
    );
    let stack = address_of_stack(STACK, 0);
    assert_eq!(stack, STACK - 1);
    assert_eq!(
        layout.is_address_in(stack, AddressSpace::User),
        ProcessAddressRegion::Stack(0)
    );
    assert_eq!(
        layout.is_address_in(STACK - THREAD_STACK_SIZE, AddressSpace::User),
        ProcessAddressRegion::Stack(0)
    );
    assert_eq!(
        layout.is_address_in(STACK - THREAD_STACK_SIZE - 1, AddressSpace::User),
        ProcessAddressRegion::Heap
    );
    assert_eq!(
        layout.is_address_in(0x7fff_e000, AddressSpace::Kernel),
        ProcessAddressRegion::TrapFrame(4)
    );
}

#[test]
fn registers_have_places_of_their_own() {
    let trampoline = 0x7fff_f000;
    assert_eq!(address_of_trapframe(trampoline, 0), 0x7fff_e000);
    assert_eq!(address_of_trapframe(trampoline, 1), 0x7fff_e400);
    assert_eq!(address_of_trapframe(trampoline, 3), 0x7fff_ec00);
    assert_eq!(address_of_trapframe(trampoline, 4), 0x7fff_d000);
    assert_eq!(address_of_stack(STACK, 2), STACK - 2 * 8 * 1024 * 1024 - 1);
}

#[test]
fn thread_without_time_waits_for_its_generation() {
    let mut generation: usize = 5;
    let mut cell = ThreadCell::new(0, 5, 0);
    assert!(cell.check_grow(&mut generation));
    cell.timeslice = QUANTUM;
    assert!(cell.check_grow(&mut generation));
    assert_eq!((cell.timeslice, cell.generation, generation), (0, 6, 5));
    cell.timeslice = QUANTUM + 3;
    assert!(!cell.check_grow(&mut generation));
    assert_eq!((cell.timeslice, cell.generation, generation), (0, 6, 6));
    assert!(cell.check_grow(&mut generation));
    let mut late = ThreadCell::new(1, 2, 0);
    late.timeslice = QUANTUM;
    assert!(!late.check_grow(&mut generation));
    assert_eq!(generation, 6);
    late.grow();
    assert_eq!(late.generation, 3);
}

#[test]
fn processes_and_threads_get_numbers_in_order() {
    let mut table = ProcessTable::new();
    let first = table.add(None, TOP, STACK, HEAP);
    assert_eq!((first.pid, first.parent, first.tid), (1, 1, 0));
    assert_eq!(first.trampoline, 0x7fff_f000);
    let second = table.add(Some(1), TOP, STACK, HEAP);
    assert_eq!((second.pid, second.parent), (2, 1));
    let thread = table.add_thread(0);
    assert_eq!((thread.tid, thread.stack), (1, STACK - THREAD_STACK_SIZE - 1));
    assert_eq!(table.add_thread(0).tid, 2);
    assert_eq!(table.snapshot(), vec![1, 2]);
    assert_eq!(table.find_process(2), Some(1));
    assert_eq!(table.find_process(3), None);
    assert_eq!(table.move_next_process(0, false), Some(1));
    assert_eq!(table.move_next_process(1, false), None);
    assert_eq!(table.move_next_process(1, true), Some(0));
}

#[test]
fn going_round_passes_every_thread() {
    let mut table = table_of(2);
    table.add_thread(0);
    let mut place = at(0, 0);
    let mut seen = vec![];
    for _ in 0..4 {
        seen.push((place.process, place.thread));
        place = table.move_next_thread(place);
    }
    assert_eq!(seen, vec![(0, 0), (0, 1), (1, 0), (0, 0)]);
}

#[test]
fn core_runs_the_next_thread_that_can() {
    let mut table = table_of(2);
    let mut first = UnfairScheduler::new(0);
    let mut second = UnfairScheduler::new(1);
    let picked = first.schedule(&mut table, 0);
    assert_eq!(picked, Some((Pick { place: at(0, 0), for_signal: false }, QUANTUM)));
    assert_eq!(table.cell(at(0, 0)).state, ExecutionState::Running);
    let other = second.schedule(&mut table, 0);
    assert_eq!(other, Some((Pick { place: at(1, 0), for_signal: false }, QUANTUM)));
    // Nothing is left for a third core.
    assert_eq!(UnfairScheduler::new(2).schedule(&mut table, 0), None);
    // The first core keeps its thread while that has time.
    let mut cell = table.cell(at(0, 0));
    cell.last_tick_time = 100;
    table.set_cell(at(0, 0), cell);
    let kept = first.schedule(&mut table, 105);
    assert_eq!(kept, Some((Pick { place: at(0, 0), for_signal: false }, QUANTUM - 5)));
    assert_eq!(first.context(&table), Some((1, 0x7fff_f000, 0x7fff_e000)));
    assert_eq!(
        first.is_address_in(&table, HEAP, AddressSpace::User),
        Some(ProcessAddressRegion::Heap)
    );
    assert_eq!(
        UnfairScheduler::new(2).is_address_in(&table, HEAP, AddressSpace::User),
        None
    );
    assert_eq!(first.finish_call(&mut table, false, 105), None);
}

#[test]
fn signals_and_health_decide_who_runs() {
    let mut table = table_of(2);
    let mut cell = table.cell(at(0, 0));
    cell.timeslice = QUANTUM;
    cell.generation = 7;
    table.set_cell(at(0, 0), cell);
    // Without a signal the thread has to wait: its generation is ahead of the others.
    let mut core = UnfairScheduler::new(0);
    let picked = core.schedule(&mut table, 0).unwrap();
    assert_eq!(picked.0, Pick { place: at(1, 0), for_signal: false });
    assert_eq!(table.current_generation(), 7);
    // With one it goes first.
    let mut cell = table.cell(at(0, 0));
    cell.timeslice = QUANTUM;
    table.set_cell(at(0, 0), cell);
    table.set_signal_ready(0, true);
    let mut other = UnfairScheduler::new(1);
    let picked = other.schedule(&mut table, 0).unwrap();
    assert_eq!(picked, (Pick { place: at(0, 0), for_signal: true }, 0));
    assert_eq!(table.cell(at(0, 0)).generation, 8);
    // A dead process does not run at all.
    let mut dead = table_of(1);
    dead.set_health(0, ProcessHealth::Dead);
    assert_eq!(UnfairScheduler::new(0).schedule(&mut dead, 0), None);
    assert_eq!(UnfairScheduler::new(0).schedule(&mut ProcessTable::new(), 0), None);
}

#[test]
fn waiting_thread_stays_off_the_core() {
    let mut table = table_of(1);
    let mut core = UnfairScheduler::new(0);
    core.schedule(&mut table, 0);
    let mut cell = table.cell(at(0, 0));
    cell.state = ExecutionState::Waiting;
    table.set_cell(at(0, 0), cell);
    assert_eq!(core.finish_call(&mut table, true, 0), None);
    assert_eq!(core.current, None);
    assert!(!table.cell(at(0, 0)).held);
}

#[test]
fn calls_work_on_the_current_process() {
    let mut table = table_of(1);
    let mut context = UnfairContext { place: at(0, 0), scheduled: false };
    assert_eq!((context.pid(&table), context.tid(&table)), (1, 0));
    assert_eq!(context.add_proc(&mut table, TOP, STACK, HEAP), 2);
    assert_eq!(context.add_thread(&mut table).tid, 1);
    assert_eq!(context.find(&table, 1), Some(0));
    assert_eq!(context.find(&table, 2), Some(1));
    assert_eq!(context.find(&table, 3), None);
    context.schedule();
    assert!(context.scheduled);
}

#[test]
fn gaps_in_the_numbers_of_threads_are_filled() {
    let table = table_of(1);
    let even = |cell: &ThreadCell| cell.id % 2 == 0;
    let mut process = kernel_task::unfair::ProcessCell::new(
        9,
        1,
        ProcessLayout::new(0x7fff_f000, STACK, HEAP),
    );
    assert_eq!(process.free_tid(), 0);
    assert_eq!(process.add(table.current_generation()).tid, 0);
    assert_eq!(process.add(0).tid, 1);
    assert_eq!(process.free_tid(), 2);
    assert_eq!(process.move_next(0), Some(1));
    assert_eq!(process.move_next(1), None);
    assert_eq!(process.move_next_until(0, even), Some(0));
    assert_eq!(process.move_next_until(1, even), None);
    assert_eq!(process.count_if_match_until(even), 1);
}

#[test]
fn reservations_are_not_seen() {
    let mut table = process_table::ProcessTable::new();
    let pid = table.alloc_pid();
    assert_eq!(pid, 1);
    assert_eq!(table.alloc_pid(), 2);
    let reservation = table.reserve_insert(pid, true).unwrap();
    assert_eq!(table.get(pid), None);
    assert_eq!(table.remove(pid), None);
    table.commit_insert(reservation, ProcessRef { pid, process: 10 });
    assert_eq!(table.get(pid), Some(ProcessRef { pid, process: 10 }));
    assert!(table.reserve_insert(3, false).is_err());
    let given_up = table.reserve_insert(4, true).unwrap();
    assert!(table.holds(&given_up));
    table.insert_boot(ProcessRef { pid: 5, process: 50 });
    table.rollback_insert(given_up);
    assert_eq!(table.get(4), None);
    assert_eq!(table.get(5), Some(ProcessRef { pid: 5, process: 50 }));
    assert_eq!(table.remove(1), Some(ProcessRef { pid: 1, process: 10 }));
    assert_eq!(table.get(1), None);
}
