use core::sync::atomic::{AtomicUsize, Ordering};
use crossbeam_utils::thread::scope;
use crossbeam_utils::Backoff;
use xarc::{AtomicXarc, Exchange, Xarc, XarcData};

/// Blocks that live as long as the test. The address of a block is its place
/// in the pool, counted from one. Nothing is freed: a block that is owed to
/// the collector is marked, and the mark tells a second release, or the use of
/// a released block, from a correct run.
struct Pool<T: Send> {
    blocks: Vec<XarcData<T>>,
    reclaimed: Vec<AtomicUsize>,
    used: AtomicUsize,
}

impl<T: Send> Pool<T> {
    fn with(values: Vec<T>) -> Self {
        let reclaimed = values.iter().map(|_| AtomicUsize::new(0)).collect();
        Pool {
            blocks: values.into_iter().map(XarcData::new).collect(),
            reclaimed,
            used: AtomicUsize::new(0),
        }
    }

    fn resolver<'a>(&'a self) -> impl Fn(usize) -> &'a XarcData<T> + 'a {
        move |addr| &self.blocks[addr - 1]
    }

    /// The first handle to the block at `index`: the one its count starts with.
    fn first<'a>(&'a self, index: usize) -> Xarc<'a, T> {
        Xarc::init(index + 1, Some(&self.blocks[index]))
    }

    /// The first handle to a block that nobody has used yet.
    fn allocate<'a>(&'a self) -> Xarc<'a, T> {
        self.first(self.used.fetch_add(1, Ordering::Relaxed))
    }

    fn mark(&self, addr: usize) {
        let before = self.reclaimed[addr - 1].fetch_add(1, Ordering::SeqCst);
        assert_eq!(before, 0, "block {} was reclaimed twice", addr);
    }

    fn is_reclaimed(&self, addr: usize) -> bool {
        self.reclaimed[addr - 1].load(Ordering::SeqCst) != 0
    }

    fn assert_live(&self, handle: &Xarc<'_, T>) {
        if !handle.is_null() {
            let addr = handle.address();
            assert!(!self.is_reclaimed(addr), "a handle refers to the reclaimed block {}", addr);
        }
    }

    fn reclaimed_blocks(&self) -> usize {
        self.reclaimed.iter().filter(|mark| mark.load(Ordering::SeqCst) == 1).count()
    }
}

fn release_plain<T: Send>(pool: &Pool<T>, handle: &mut Xarc<'_, T>) {
    pool.assert_live(handle);
    if let Some(addr) = handle.reset() {
        pool.mark(addr);
    }
}

#[test]
fn a_block_is_reclaimed_once_by_the_last_of_many_releases() {
    let threads = 8;
    let rounds = 20000;
    let pool = Pool::with(vec![7usize]);
    let resolve = pool.resolver();
    let slot = AtomicXarc::init(1);
    let released = AtomicUsize::new(0);
    scope(|s| {
        for _ in 0..threads {
            s.spawn(|_| {
                let resolve = pool.resolver();
                let mut mine = slot.load(Ordering::Acquire, &resolve).unwrap();
                for _ in 0..rounds {
                    let mut copy = mine.clone().unwrap();
                    assert_eq!(copy.maybe_deref(), Some(&7));
                    assert!(!copy.is_unique());
                    pool.assert_live(&copy);
                    assert_eq!(copy.reset(), None);
                    let mut loaded = slot.load(Ordering::Acquire, &resolve).unwrap();
                    assert_eq!(loaded, mine);
                    assert_eq!(loaded.reset(), None);
                }
                released.fetch_add(1, Ordering::SeqCst);
                // the slot still holds the block: this is never the last reference
                assert_eq!(mine.reset(), None);
            });
        }
    }).unwrap();
    assert_eq!(released.load(Ordering::SeqCst), threads);
    assert!(!pool.is_reclaimed(1));
    let mut last = slot.load(Ordering::Acquire, &resolve).unwrap();
    assert_eq!(slot.release(&resolve), None);
    assert!(last.is_unique());
    assert_eq!(last.reset(), Some(1));
}

#[test]
fn racing_releases_report_the_last_reference_once() {
    let threads = 8;
    let rounds = 2000;
    for _ in 0..rounds {
        let pool = Pool::with(vec![1usize]);
        let mut first = pool.first(0);
        let mut handles = Vec::new();
        for _ in 1..threads {
            handles.push(first.clone().unwrap());
        }
        handles.push(first.clone().unwrap());
        assert_eq!(first.reset(), None);
        scope(|s| {
            for mut handle in handles.drain(..) {
                let pool = &pool;
                s.spawn(move |_| {
                    release_plain(pool, &mut handle);
                });
            }
        }).unwrap();
        assert_eq!(pool.reclaimed_blocks(), 1);
    }
}

#[test]
fn one_of_many_concurrent_exchanges_wins() {
    let threads = 8;
    let rounds = 500;
    for _ in 0..rounds {
        let pool = Pool::with((0..threads).collect::<Vec<usize>>());
        let slot = AtomicXarc::<usize>::null();
        let winners = AtomicUsize::new(0);
        let winner = AtomicUsize::new(0);
        let found: Vec<AtomicUsize> = (0..threads).map(|_| AtomicUsize::new(0)).collect();
        scope(|s| {
            for index in 0..threads {
                let pool = &pool;
                let slot = &slot;
                let winners = &winners;
                let winner = &winner;
                let found = &found;
                s.spawn(move |_| {
                    let resolve = pool.resolver();
                    let mut mine = pool.first(index);
                    let report = slot.compare_exchange(
                        &Xarc::null(),
                        &mine,
                        Ordering::AcqRel,
                        Ordering::Acquire,
                        &resolve,
                    ).unwrap();
                    assert_eq!(report.reclaim_new, None);
                    match report.exchange {
                        Exchange::Swapped(previous) => {
                            assert!(previous.is_null());
                            winners.fetch_add(1, Ordering::SeqCst);
                            winner.store(mine.address(), Ordering::SeqCst);
                        },
                        Exchange::Kept(mut current) => {
                            assert!(!current.is_null());
                            pool.assert_live(&current);
                            found[index].store(current.address(), Ordering::SeqCst);
                            release_plain(pool, &mut current);
                        },
                        Exchange::Unsettled => panic!("nothing releases the slot's value"),
                    }
                    release_plain(pool, &mut mine);
                });
            }
        }).unwrap();
        assert_eq!(winners.load(Ordering::SeqCst), 1);
        let won = winner.load(Ordering::SeqCst);
        for index in 0..threads {
            if index + 1 != won {
                // the slot held null and then the winner, nothing else
                assert_eq!(found[index].load(Ordering::SeqCst), won);
            }
        }
        // the losers' blocks are gone, the winner's is the slot's
        assert_eq!(pool.reclaimed_blocks(), threads - 1);
        assert!(!pool.is_reclaimed(won));
        assert_eq!(slot.release(&pool.resolver()), Some(won));
    }
}

#[test]
fn successful_exchanges_form_one_chain() {
    let threads = 8;
    let each = 2000;
    let total = threads * each;
    let pool = Pool::with((0..total).collect::<Vec<usize>>());
    let slot = AtomicXarc::<usize>::null();
    // for each value that the slot held, the value that replaced it
    let follower: Vec<AtomicUsize> = (0..total + 1).map(|_| AtomicUsize::new(usize::MAX)).collect();
    scope(|s| {
        for thread in 0..threads {
            let pool = &pool;
            let slot = &slot;
            let follower = &follower;
            s.spawn(move |_| {
                let resolve = pool.resolver();
                let backoff = Backoff::new();
                let mut current = slot.load(Ordering::Acquire, &resolve).unwrap();
                for turn in 0..each {
                    let mut mine = pool.first(thread * each + turn);
                    loop {
                        let report = slot.compare_exchange_weak(
                            &current,
                            &mine,
                            Ordering::AcqRel,
                            Ordering::Acquire,
                            &resolve,
                        ).unwrap();
                        assert_eq!(report.reclaim_new, None);
                        match report.exchange {
                            Exchange::Swapped(mut previous) => {
                                assert_eq!(previous, current);
                                let before = follower[previous.address()].swap(
                                    mine.address(),
                                    Ordering::SeqCst,
                                );
                                assert_eq!(before, usize::MAX, "two exchanges replaced one value");
                                release_plain(pool, &mut previous);
                                release_plain(pool, &mut current);
                                current = mine.clone().unwrap();
                                break;
                            },
                            Exchange::Kept(found) => {
                                pool.assert_live(&found);
                                release_plain(pool, &mut current);
                                current = found;
                                backoff.spin();
                            },
                            Exchange::Unsettled => panic!("the retry limit cannot be reached"),
                        }
                    }
                    release_plain(pool, &mut mine);
                }
                release_plain(pool, &mut current);
            });
        }
    }).unwrap();
    // walk the chain from the empty slot: it passes through every block once
    let mut at = 0;
    let mut seen = 0;
    while follower[at].load(Ordering::SeqCst) != usize::MAX {
        at = follower[at].load(Ordering::SeqCst);
        seen += 1;
    }
    assert_eq!(seen, total);
    let resolve = pool.resolver();
    let mut last = slot.load(Ordering::Acquire, &resolve).unwrap();
    assert_eq!(last.address(), at);
    release_plain(&pool, &mut last);
    assert_eq!(pool.reclaimed_blocks(), total - 1);
    assert_eq!(slot.release(&resolve), Some(at));
}

#[test]
fn load_never_returns_a_reclaimed_block() {
    let writers = 2;
    let readers = 6;
    let each = 20000;
    let total = writers * each;
    let pool = Pool::with((1..total + 1).collect::<Vec<usize>>());
    let slot = AtomicXarc::<usize>::null();
    let done = AtomicUsize::new(0);
    let loads = AtomicUsize::new(0);
    scope(|s| {
        for writer in 0..writers {
            let pool = &pool;
            let slot = &slot;
            let done = &done;
            s.spawn(move |_| {
                let resolve = pool.resolver();
                for turn in 0..each {
                    let mut mine = pool.first(writer * each + turn);
                    let mut previous = slot.swap(&mine, Ordering::AcqRel, &resolve).unwrap();
                    release_plain(pool, &mut mine);
                    release_plain(pool, &mut previous);
                }
                done.fetch_add(1, Ordering::SeqCst);
            });
        }
        for _ in 0..readers {
            let pool = &pool;
            let slot = &slot;
            let done = &done;
            let loads = &loads;
            s.spawn(move |_| {
                let resolve = pool.resolver();
                let mut rounds = 0;
                while rounds < 1000 || done.load(Ordering::SeqCst) < writers {
                    rounds += 1;
                    let mut handle = slot.load(Ordering::Acquire, &resolve).unwrap();
                    pool.assert_live(&handle);
                    if let Some(value) = handle.maybe_deref() {
                        assert_eq!(*value, handle.address());
                    }
                    release_plain(pool, &mut handle);
                    if let Ok(mut attempt) = slot.try_load(Ordering::Acquire, &resolve) {
                        pool.assert_live(&attempt);
                        release_plain(pool, &mut attempt);
                    }
                    loads.fetch_add(1, Ordering::Relaxed);
                }
            });
        }
    }).unwrap();
    assert!(loads.load(Ordering::SeqCst) > 0);
    let resolve = pool.resolver();
    let mut last = slot.load(Ordering::Acquire, &resolve).unwrap();
    let held = last.address();
    assert_eq!(last.reset(), None);
    assert_eq!(pool.reclaimed_blocks(), total - 1);
    assert_eq!(slot.release(&resolve), Some(held));
}

struct StackNode {
    value: usize,
    next: AtomicXarc<StackNode>,
}

/// Destroys the node at `addr`, and with it the slot inside, which may
/// release the last reference to the node below.
fn destroy_stack_node(pool: &Pool<StackNode>, addr: usize) {
    let resolve = pool.resolver();
    let mut pending = vec![addr];
    while let Some(addr) = pending.pop() {
        pool.mark(addr);
        let mut below = pool.blocks[addr - 1].value.next.swap(
            &Xarc::null(),
            Ordering::AcqRel,
            &resolve,
        ).unwrap();
        if let Some(next) = below.reset() {
            pending.push(next);
        }
    }
}

fn release_stack_node(pool: &Pool<StackNode>, handle: &mut Xarc<'_, StackNode>) {
    pool.assert_live(handle);
    if let Some(addr) = handle.reset() {
        destroy_stack_node(pool, addr);
    }
}

fn stack_push(head: &AtomicXarc<StackNode>, pool: &Pool<StackNode>, index: usize) {
    let resolve = pool.resolver();
    let backoff = Backoff::new();
    let mut new = pool.first(index);
    let mut current = head.load(Ordering::Relaxed, &resolve).unwrap();
    loop {
        let next = &new.maybe_deref().unwrap().next;
        let mut stale = next.swap(&current, Ordering::Relaxed, &resolve).unwrap();
        release_stack_node(pool, &mut stale);
        let report = head.compare_exchange_weak(
            &current,
            &new,
            Ordering::Release,
            Ordering::Relaxed,
            &resolve,
        ).unwrap();
        assert_eq!(report.reclaim_new, None);
        match report.exchange {
            Exchange::Swapped(mut previous) => {
                release_stack_node(pool, &mut previous);
                release_stack_node(pool, &mut current);
                release_stack_node(pool, &mut new);
                return;
            },
            Exchange::Kept(found) => {
                release_stack_node(pool, &mut current);
                current = found;
                backoff.spin();
            },
            Exchange::Unsettled => panic!("the retry limit cannot be reached"),
        }
    }
}

fn stack_try_pop(head: &AtomicXarc<StackNode>, pool: &Pool<StackNode>) -> Option<usize> {
    let resolve = pool.resolver();
    let backoff = Backoff::new();
    let mut current = head.load(Ordering::Relaxed, &resolve).unwrap();
    loop {
        pool.assert_live(&current);
        let node = match current.maybe_deref() {
            Some(node) => node,
            None => return None,
        };
        let mut next = node.next.load(Ordering::Relaxed, &resolve).unwrap();
        let report = head.compare_exchange_weak(
            &current,
            &next,
            Ordering::Acquire,
            Ordering::Relaxed,
            &resolve,
        ).unwrap();
        assert_eq!(report.reclaim_new, None);
        release_stack_node(pool, &mut next);
        match report.exchange {
            Exchange::Swapped(mut previous) => {
                let value = node.value;
                release_stack_node(pool, &mut previous);
                release_stack_node(pool, &mut current);
                return Some(value);
            },
            Exchange::Kept(found) => {
                release_stack_node(pool, &mut current);
                current = found;
                backoff.spin();
            },
            Exchange::Unsettled => panic!("the retry limit cannot be reached"),
        }
    }
}

#[test]
fn a_treiber_stack_pops_what_eight_threads_pushed() {
    let threads = 8;
    let total = 10000;
    let pool = Pool::with(
        (0..total).map(|value| StackNode { value, next: AtomicXarc::null() }).collect(),
    );
    let head = AtomicXarc::<StackNode>::null();
    scope(|s| {
        for thread in 0..threads {
            let pool = &pool;
            let head = &head;
            s.spawn(move |_| {
                let mut index = thread;
                while index < total {
                    stack_push(head, pool, index);
                    index += threads;
                }
            });
        }
    }).unwrap();
    assert_eq!(pool.reclaimed_blocks(), 0);
    let popped = scope(|s| {
        let mut workers = Vec::new();
        for _ in 0..threads {
            let pool = &pool;
            let head = &head;
            workers.push(s.spawn(move |_| {
                let mut values = Vec::new();
                while let Some(value) = stack_try_pop(head, pool) {
                    values.push(value);
                }
                values
            }));
        }
        let mut popped = Vec::new();
        for worker in workers {
            popped.extend(worker.join().unwrap());
        }
        popped
    }).unwrap();
    let mut popped = popped;
    popped.sort();
    assert_eq!(popped, (0..total).collect::<Vec<usize>>());
    let resolve = pool.resolver();
    assert!(head.load(Ordering::Relaxed, &resolve).unwrap().is_null());
    assert_eq!(stack_try_pop(&head, &pool), None);
    // every node was handed to the collector, once
    assert_eq!(pool.reclaimed_blocks(), total);
    assert_eq!(head.release(&resolve), None);
}

#[test]
fn a_treiber_stack_survives_pushes_and_pops_at_once() {
    let threads = 4;
    let total = 10000;
    let pool = Pool::with(
        (0..total).map(|value| StackNode { value, next: AtomicXarc::null() }).collect(),
    );
    let head = AtomicXarc::<StackNode>::null();
    let pushed = AtomicUsize::new(0);
    let popped = scope(|s| {
        for thread in 0..threads {
            let pool = &pool;
            let head = &head;
            let pushed = &pushed;
            s.spawn(move |_| {
                let mut index = thread;
                while index < total {
                    stack_push(head, pool, index);
                    index += threads;
                }
                pushed.fetch_add(1, Ordering::SeqCst);
            });
        }
        let mut workers = Vec::new();
        for _ in 0..threads {
            let pool = &pool;
            let head = &head;
            let pushed = &pushed;
            workers.push(s.spawn(move |_| {
                let mut values = Vec::new();
                loop {
                    let finished = pushed.load(Ordering::SeqCst) == threads;
                    match stack_try_pop(head, pool) {
                        Some(value) => values.push(value),
                        None => {
                            if finished {
                                break;
                            }
                        },
                    }
                }
                values
            }));
        }
        let mut popped = Vec::new();
        for worker in workers {
            popped.extend(worker.join().unwrap());
        }
        popped
    }).unwrap();
    let mut popped = popped;
    popped.sort();
    assert_eq!(popped, (0..total).collect::<Vec<usize>>());
    assert_eq!(pool.reclaimed_blocks(), total);
    assert_eq!(head.release(&pool.resolver()), None);
}

struct QueueNode {
    value: AtomicXarc<i64>,
    next: AtomicXarc<QueueNode>,
}

struct Queue<'a> {
    head: AtomicXarc<QueueNode>,
    tail: AtomicXarc<QueueNode>,
    nodes: &'a Pool<QueueNode>,
    cells: &'a Pool<i64>,
}

impl<'a> Queue<'a> {
    fn new(nodes: &'a Pool<QueueNode>, cells: &'a Pool<i64>) -> Self {
        let mut node = nodes.allocate();
        let queue = Queue {
            head: AtomicXarc::from(&node).unwrap(),
            tail: AtomicXarc::from(&node).unwrap(),
            nodes,
            cells,
        };
        queue.release(&mut node);
        queue
    }

    /// Destroys the node at `addr` and the two slots inside.
    fn destroy(&self, addr: usize) {
        let resolve = self.nodes.resolver();
        let resolve_cell = self.cells.resolver();
        let mut pending = vec![addr];
        while let Some(addr) = pending.pop() {
            self.nodes.mark(addr);
            let node = &self.nodes.blocks[addr - 1].value;
            let mut cell = node.value.swap(&Xarc::null(), Ordering::AcqRel, &resolve_cell).unwrap();
            release_plain(self.cells, &mut cell);
            let mut next = node.next.swap(&Xarc::null(), Ordering::AcqRel, &resolve).unwrap();
            if let Some(next) = next.reset() {
                pending.push(next);
            }
        }
    }

    fn release(&self, handle: &mut Xarc<'a, QueueNode>) {
        self.nodes.assert_live(handle);
        if let Some(addr) = handle.reset() {
            self.destroy(addr);
        }
    }

    fn push(&self, index: usize) {
        let resolve = self.nodes.resolver();
        let resolve_cell = self.cells.resolver();
        let backoff = Backoff::new();
        let mut value = self.cells.first(index);
        let mut new_tail = self.nodes.allocate();
        let mut current_tail = self.tail.load(Ordering::Relaxed, &resolve).unwrap();
        loop {
            self.nodes.assert_live(&current_tail);
            let report = current_tail.maybe_deref().unwrap().value.compare_exchange(
                &Xarc::null(),
                &value,
                Ordering::Release,
                Ordering::Relaxed,
                &resolve_cell,
            ).unwrap();
            assert_eq!(report.reclaim_new, None);
            match report.exchange {
                Exchange::Swapped(previous) => {
                    assert!(previous.is_null());
                    let mut after = match self.try_update_tail(&current_tail, &new_tail) {
                        Ok(tail) => tail,
                        Err(tail) => tail,
                    };
                    self.release(&mut after);
                    break;
                },
                Exchange::Kept(mut taken) => {
                    release_plain(self.cells, &mut taken);
                    match self.try_update_tail(&current_tail, &new_tail) {
                        Ok(next) => {
                            self.release(&mut current_tail);
                            current_tail = next;
                            self.release(&mut new_tail);
                            new_tail = self.nodes.allocate();
                        },
                        Err(next) => {
                            self.release(&mut current_tail);
                            current_tail = next;
                        },
                    }
                    backoff.spin();
                },
                Exchange::Unsettled => panic!("the retry limit cannot be reached"),
            }
        }
        release_plain(self.cells, &mut value);
        self.release(&mut new_tail);
        self.release(&mut current_tail);
    }

    fn try_pop(&self) -> Option<i64> {
        let resolve = self.nodes.resolver();
        let resolve_cell = self.cells.resolver();
        let backoff = Backoff::new();
        let mut current_head = self.head.load(Ordering::Relaxed, &resolve).unwrap();
        loop {
            self.nodes.assert_live(&current_head);
            let node = current_head.maybe_deref().unwrap();
            let mut value = node.value.load(Ordering::Relaxed, &resolve_cell).unwrap();
            if value.is_null() {
                self.release(&mut current_head);
                return None;
            }
            let mut next = node.next.load(Ordering::Relaxed, &resolve).unwrap();
            if next.is_null() {
                next = self.nodes.allocate();
                match self.try_update_tail(&current_head, &next) {
                    Ok(mut tail) => self.release(&mut tail),
                    Err(mut tail) => {
                        self.release(&mut tail);
                        self.release(&mut next);
                        release_plain(self.cells, &mut value);
                        self.release(&mut current_head);
                        current_head = self.head.load(Ordering::Relaxed, &resolve).unwrap();
                        continue;
                    },
                }
            }
            let report = self.head.compare_exchange(
                &current_head,
                &next,
                Ordering::Release,
                Ordering::Relaxed,
                &resolve,
            ).unwrap();
            assert_eq!(report.reclaim_new, None);
            self.release(&mut next);
            match report.exchange {
                Exchange::Swapped(mut previous) => {
                    self.cells.assert_live(&value);
                    let taken = *value.maybe_deref().unwrap();
                    release_plain(self.cells, &mut value);
                    self.release(&mut previous);
                    self.release(&mut current_head);
                    return Some(taken);
                },
                Exchange::Kept(head) => {
                    release_plain(self.cells, &mut value);
                    self.release(&mut current_head);
                    current_head = head;
                    backoff.spin();
                },
                Exchange::Unsettled => panic!("the retry limit cannot be reached"),
            }
        }
    }

    fn try_update_tail(
        &self,
        current_tail: &Xarc<'a, QueueNode>,
        new_tail: &Xarc<'a, QueueNode>,
    ) -> Result<Xarc<'a, QueueNode>, Xarc<'a, QueueNode>> {
        let resolve = self.nodes.resolver();
        let report = current_tail.maybe_deref().unwrap().next.compare_exchange(
            &Xarc::null(),
            new_tail,
            Ordering::Relaxed,
            Ordering::Relaxed,
            &resolve,
        ).unwrap();
        assert_eq!(report.reclaim_new, None);
        match report.exchange {
            Exchange::Swapped(previous) => {
                assert!(previous.is_null());
                let (tail, reclaim) = self.tail.compare_and_swap(
                    current_tail,
                    new_tail,
                    Ordering::Relaxed,
                    Ordering::Relaxed,
                    &resolve,
                ).unwrap();
                assert_eq!(reclaim, None);
                Ok(tail.unwrap())
            },
            Exchange::Kept(mut current_tail_next) => {
                let (tail, reclaim) = self.tail.compare_and_swap(
                    current_tail,
                    &current_tail_next,
                    Ordering::Relaxed,
                    Ordering::Relaxed,
                    &resolve,
                ).unwrap();
                assert_eq!(reclaim, None);
                self.release(&mut current_tail_next);
                Err(tail.unwrap())
            },
            Exchange::Unsettled => panic!("the retry limit cannot be reached"),
        }
    }

    fn is_empty(&self) -> bool {
        let resolve = self.nodes.resolver();
        let mut head = self.head.load(Ordering::Relaxed, &resolve).unwrap();
        let mut tail = self.tail.load(Ordering::Relaxed, &resolve).unwrap();
        let empty = head == tail;
        self.release(&mut head);
        self.release(&mut tail);
        empty
    }

    /// Gives up the queue; returns how many nodes it had used.
    fn close(self) -> usize {
        let resolve = self.nodes.resolver();
        let mut head = self.head.swap(&Xarc::null(), Ordering::AcqRel, &resolve).unwrap();
        self.release(&mut head);
        let mut tail = self.tail.swap(&Xarc::null(), Ordering::AcqRel, &resolve).unwrap();
        self.release(&mut tail);
        self.nodes.used.load(Ordering::SeqCst)
    }
}

#[test]
fn a_queue_hands_on_every_value_once() {
    let threads = 8;
    let block_size: usize = 512;
    let num_blocks: usize = 512;
    let total = block_size * num_blocks;
    let cells = Pool::with((0..total as i64).collect::<Vec<i64>>());
    let nodes = Pool::with(
        (0..2 * total + 1024)
            .map(|_| QueueNode { value: AtomicXarc::null(), next: AtomicXarc::null() })
            .collect(),
    );
    let queue = Queue::new(&nodes, &cells);
    assert!(queue.is_empty());
    scope(|s| {
        for thread in 0..threads {
            let queue = &queue;
            s.spawn(move |_| {
                let mut block = thread;
                while block < num_blocks {
                    for index in block * block_size..(block + 1) * block_size {
                        queue.push(index);
                    }
                    block += threads;
                }
            });
        }
    }).unwrap();
    assert!(!queue.is_empty());
    let received = scope(|s| {
        let mut workers = Vec::new();
        for thread in 0..threads {
            let queue = &queue;
            workers.push(s.spawn(move |_| {
                let mut values = Vec::new();
                let mut block = thread;
                while block < num_blocks {
                    for _ in 0..block_size {
                        values.push(queue.try_pop().unwrap());
                    }
                    block += threads;
                }
                values
            }));
        }
        let mut received = Vec::new();
        for worker in workers {
            received.extend(worker.join().unwrap());
        }
        received
    }).unwrap();
    assert_eq!(queue.is_empty(), true);
    assert_eq!(queue.try_pop(), None);
    let mut received = received;
    received.sort();
    assert_eq!(received, (0..total as i64).collect::<Vec<i64>>());
    // every value and every node that was used went to the collector, once
    let used = queue.close();
    assert_eq!(cells.reclaimed_blocks(), total);
    assert_eq!(nodes.reclaimed_blocks(), used);
}
