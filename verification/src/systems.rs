//! The system registry and its dispatch.
//!
//! An update routine is a function from the per-frame context to the
//! per-frame context.  Each is registered once, before the frame loop
//! starts; `run_all_systems` then runs every registered routine exactly
//! once per call, in registration order.  The registry is generic in
//! the routine type; a host instantiates it with its routine type, most
//! plainly a function pointer taking and returning the context.
use vstd::prelude::*;

use crate::components::F32Bits;
use crate::sprites::SpriteCatalog;
use crate::store::Store;

pub mod player;

verus! {

/// The per-frame context: the store, the sprite catalog, and the
/// elapsed time since the last frame (clamped by the host), as bits.
pub struct SysCtx {
    pub store: Store,
    pub sprites: SpriteCatalog,
    pub dt: F32Bits,
}

/// One registered update routine: its name and its entry point.
pub struct GameSystem<F> {
    pub name: String,
    pub func: F,
}

/// The context evolves by running each routine of `fs` exactly once, in
/// order: some chain of intermediate contexts joins `a` to `b`, each
/// step a result the respective routine admits.
pub open spec fn runs<F: Fn(SysCtx) -> SysCtx>(fs: Seq<F>, a: SysCtx, b: SysCtx) -> bool
    decreases fs.len(),
{
    if fs.len() == 0 {
        a == b
    } else {
        exists|mid: SysCtx|
            #[trigger] call_ensures(fs[0], (a,), mid) && runs(fs.drop_first(), mid, b)
    }
}

/// The process-wide collection of update routines.  Routines enter once
/// at startup and are never removed.
pub struct SystemRegistry<F> {
    systems: Vec<GameSystem<F>>,
}

impl<F: Fn(SysCtx) -> SysCtx> SystemRegistry<F> {
    /// The registered entry points, in registration order.
    pub closed spec fn funcs(&self) -> Seq<F> {
        self.systems@.map_values(|g: GameSystem<F>| g.func)
    }

    /// The registered names, in registration order.
    pub closed spec fn names(&self) -> Seq<Seq<char>> {
        self.systems@.map_values(|g: GameSystem<F>| g.name@)
    }

    /// Every registered routine accepts every context.
    pub closed spec fn wf(&self) -> bool {
        forall|i: int, c: SysCtx|
            0 <= i < self.funcs().len() ==> #[trigger] call_requires(self.funcs()[i], (c,))
    }

    /// An empty registry.
    pub fn new() -> (r: SystemRegistry<F>)
        ensures
            r.funcs() == Seq::<F>::empty(),
            r.names() == Seq::<Seq<char>>::empty(),
            r.wf(),
    {
        let r = SystemRegistry { systems: Vec::new() };
        proof {
            assert(r.funcs() =~= Seq::<F>::empty());
            assert(r.names() =~= Seq::<Seq<char>>::empty());
        }
        r
    }

    /// How many routines are registered.
    pub fn len(&self) -> (n: usize)
        ensures
            n == self.funcs().len(),
    {
        self.systems.len()
    }

    /// The name of the routine registered at `i`.
    pub fn name_at(&self, i: usize) -> (r: Option<&String>)
        ensures
            match r {
                Some(n) => i < self.names().len() && n@ == self.names()[i as int],
                None => i >= self.names().len(),
            },
    {
        if i < self.systems.len() {
            Some(&self.systems[i].name)
        } else {
            None
        }
    }

    /// Enter one routine, which must accept every context, into the
    /// registry.  There is no way back out.
    pub fn register(&mut self, name: String, func: F)
        requires
            old(self).wf(),
            forall|c: SysCtx| call_requires(func, (c,)),
        ensures
            final(self).wf(),
            final(self).funcs() == old(self).funcs().push(func),
            final(self).names() == old(self).names().push(name@),
    {
        self.systems.push(GameSystem { name, func });
        proof {
            assert(self.funcs() =~= old(self).funcs().push(func));
            assert(self.names() =~= old(self).names().push(self.systems@.last().name@));
            assert forall|i: int, c: SysCtx|
                0 <= i < self.funcs().len() implies #[trigger] call_requires(
                self.funcs()[i],
                (c,),
            ) by {
                if i < old(self).funcs().len() {
                    assert(self.funcs()[i] == old(self).funcs()[i]);
                }
            }
        }
    }
}

/// Run every registered routine exactly once, in registration order,
/// threading the per-frame context through the chain.
pub fn run_all_systems<F: Fn(SysCtx) -> SysCtx>(reg: &SystemRegistry<F>, ctx: SysCtx) -> (r: SysCtx)
    requires
        reg.wf(),
    ensures
        runs(reg.funcs(), ctx, r),
{
    let n = reg.len();
    let mut cur = ctx;
    let mut k: usize = 0;
    let ghost orig = cur;
    proof {
        assert(reg.funcs().subrange(0, n as int) =~= reg.funcs());
    }
    while k < n
        invariant
            k <= n,
            n == reg.funcs().len(),
            reg.wf(),
            orig == ctx,
            forall|b: SysCtx|
                runs(#[trigger] reg.funcs().subrange(k as int, n as int), cur, b) ==> runs(
                    reg.funcs().subrange(0, n as int),
                    orig,
                    b,
                ),
        decreases n - k,
    {
        proof {
            assert(call_requires(reg.funcs()[k as int], (cur,)));
        }
        let ghost prev = cur;
        cur = (reg.systems[k].func)(cur);
        proof {
            assert(call_ensures(reg.funcs()[k as int], (prev,), cur));
            assert(reg.funcs().subrange(k as int, n as int).drop_first() =~= reg.funcs().subrange(
                k as int + 1,
                n as int,
            ));
            assert forall|b: SysCtx|
                runs(#[trigger] reg.funcs().subrange(k as int + 1, n as int), cur, b) implies runs(
                reg.funcs().subrange(0, n as int),
                orig,
                b,
            ) by {
                assert(reg.funcs().subrange(k as int, n as int)[0] == reg.funcs()[k as int]);
                assert(runs(reg.funcs().subrange(k as int, n as int), prev, b));
            }
        }
        k = k + 1;
    }
    proof {
        assert(reg.funcs().subrange(n as int, n as int) =~= Seq::<F>::empty());
        assert(runs(reg.funcs().subrange(n as int, n as int), cur, cur));
        assert(reg.funcs().subrange(0, n as int) =~= reg.funcs());
    }
    cur
}

} // verus!
