//! Calls to a chip: what one call can do, what a series of calls can do, and
//! what a series of calls leaves alone.

use super::{FlashError, FlashHardware, FlashState};
use vstd::prelude::*;

verus! {

/// A call to a chip. For a read, `buf` is what the buffer holds before and
/// `bytes` what it holds after.
pub enum Call {
    Unlock,
    MapRegion { offset: u32, size: u32 },
    Erase { sector: u32 },
    ReadPlain { offset: u32, buf: Seq<u8>, bytes: Seq<u8> },
    ReadDecrypted { offset: u32, buf: Seq<u8>, bytes: Seq<u8> },
    WritePlain { offset: u32, data: Seq<u8> },
    WriteEncrypted { offset: u32, data: Seq<u8> },
}

/// The call takes the chip from `before` to `after`, with this fault if it
/// fails.
pub open spec fn answers<H: FlashHardware>(
    before: H,
    call: Call,
    after: H,
    fault: Option<FlashError>,
) -> bool {
    match call {
        Call::Unlock => H::unlocks(before, after, fault),
        Call::MapRegion { offset, size } => H::maps(before, after, offset, size, fault),
        Call::Erase { sector } => H::erases(before, after, sector, fault),
        Call::ReadPlain { offset, buf, bytes } => H::reads_plain(
            before,
            after,
            offset,
            buf,
            bytes,
            fault,
        ),
        Call::ReadDecrypted { offset, buf, bytes } => H::reads_decrypted(
            before,
            after,
            offset,
            buf,
            bytes,
            fault,
        ),
        Call::WritePlain { offset, data } => H::writes_plain(before, after, offset, data, fault),
        Call::WriteEncrypted { offset, data } => H::writes_encrypted(
            before,
            after,
            offset,
            data,
            fault,
        ),
    }
}

/// An encrypting write covers one block of the chip, and every byte of it is
/// erased.
pub open spec fn lands_on_erased(state: FlashState, call: Call) -> bool {
    call matches Call::WriteEncrypted { offset, data } ==> {
        &&& offset as int % state.block as int == 0
        &&& data.len() == state.block
        &&& state.is_erased(offset as int, data.len() as int)
    }
}

/// The calls, one after the other, take the chip from `before` to `after`.
/// With a fault the last of them failed, and no other; without one none did.
/// If `clean`, each encrypting write lands on an erased block.
pub open spec fn runs<H: FlashHardware>(
    before: H,
    calls: Seq<Call>,
    after: H,
    fault: Option<FlashError>,
    clean: bool,
) -> bool
    decreases calls.len(),
{
    if calls.len() == 0 {
        after == before && fault is None
    } else {
        exists|middle: H|
            runs(before, calls.drop_last(), middle, None, clean) && #[trigger] answers(
                middle,
                calls.last(),
                after,
                fault,
            ) && (clean ==> lands_on_erased(middle@, calls.last()))
    }
}

/// The call changes nothing but bytes of these sectors.
pub open spec fn keeps_to(call: Call, sector: int, sectors: Set<int>) -> bool {
    match call {
        Call::MapRegion { .. } => false,
        Call::Erase { sector: index } => sectors.contains(index as int),
        Call::WritePlain { offset, data } => sectors.contains(offset as int / sector),
        Call::WriteEncrypted { offset, data } => sectors.contains(offset as int / sector),
        _ => true,
    }
}

/// Each of the calls changes nothing but bytes of these sectors.
pub open spec fn all_keep_to(calls: Seq<Call>, sector: int, sectors: Set<int>) -> bool {
    forall|i: int| 0 <= i < calls.len() ==> keeps_to(#[trigger] calls[i], sector, sectors)
}

/// Some calls that keep to these sectors take the chip from `before` to
/// `after`: see [`runs`].
pub open spec fn works_in<H: FlashHardware>(
    before: H,
    after: H,
    fault: Option<FlashError>,
    clean: bool,
    sector: int,
    sectors: Set<int>,
) -> bool {
    exists|calls: Seq<Call>| #[trigger]
        runs(before, calls, after, fault, clean) && all_keep_to(calls, sector, sectors)
}

/// A call without its bytes: a read or a write has an address and a length.
pub enum Step {
    Unlock,
    MapRegion(u32, u32),
    Erase(u32),
    ReadPlain(u32, nat),
    ReadDecrypted(u32, nat),
    WritePlain(u32, nat),
    WriteEncrypted(u32, nat),
}

/// A call without its bytes.
pub open spec fn step_of(call: Call) -> Step {
    match call {
        Call::Unlock => Step::Unlock,
        Call::MapRegion { offset, size } => Step::MapRegion(offset, size),
        Call::Erase { sector } => Step::Erase(sector),
        Call::ReadPlain { offset, buf, bytes } => Step::ReadPlain(offset, buf.len()),
        Call::ReadDecrypted { offset, buf, bytes } => Step::ReadDecrypted(offset, buf.len()),
        Call::WritePlain { offset, data } => Step::WritePlain(offset, data.len()),
        Call::WriteEncrypted { offset, data } => Step::WriteEncrypted(offset, data.len()),
    }
}

/// Calls without their bytes.
pub open spec fn steps_of(calls: Seq<Call>) -> Seq<Step> {
    calls.map_values(|call: Call| step_of(call))
}

/// The calls that take the chip from `before` to `after` keep to these sectors
/// and are those of the plan: all of them, or, if one fails, those up to it.
pub open spec fn follows<H: FlashHardware>(
    before: H,
    after: H,
    fault: Option<FlashError>,
    clean: bool,
    sector: int,
    sectors: Set<int>,
    plan: Seq<Step>,
) -> bool {
    exists|calls: Seq<Call>| #[trigger]
        runs(before, calls, after, fault, clean) && all_keep_to(calls, sector, sectors)
            && steps_of(calls).is_prefix_of(plan) && (fault is None ==> steps_of(calls) == plan)
}

/// The sectors that the bytes from `offset` to before `end` touch.
pub open spec fn sectors_between(offset: int, end: int, sector: int) -> Set<int> {
    Set::new(|s: int| offset / sector <= s <= (end - 1) / sector)
}

/// One call more.
pub proof fn lemma_runs_push<H: FlashHardware>(
    before: H,
    calls: Seq<Call>,
    middle: H,
    call: Call,
    after: H,
    fault: Option<FlashError>,
    clean: bool,
)
    requires
        runs(before, calls, middle, None, clean),
        answers(middle, call, after, fault),
        clean ==> lands_on_erased(middle@, call),
    ensures
        runs(before, calls.push(call), after, fault, clean),
{
    assert(calls.push(call).drop_last() =~= calls);
    assert(calls.push(call).last() == call);
}

/// The last call: the calls before it ran without a fault, and it brought the
/// chip to where it is.
pub proof fn lemma_runs_pop<H: FlashHardware>(
    before: H,
    calls: Seq<Call>,
    after: H,
    fault: Option<FlashError>,
    clean: bool,
) -> (middle: H)
    requires
        runs(before, calls, after, fault, clean),
        calls.len() > 0,
    ensures
        runs(before, calls.drop_last(), middle, None, clean),
        answers(middle, calls.last(), after, fault),
        clean ==> lands_on_erased(middle@, calls.last()),
{
    choose|m: H|
        runs(before, calls.drop_last(), m, None, clean) && #[trigger] answers(
            m,
            calls.last(),
            after,
            fault,
        ) && (clean ==> lands_on_erased(m@, calls.last()))
}

/// One series of calls after another.
pub proof fn lemma_runs_concat<H: FlashHardware>(
    before: H,
    first: Seq<Call>,
    middle: H,
    second: Seq<Call>,
    after: H,
    fault: Option<FlashError>,
    clean: bool,
)
    requires
        runs(before, first, middle, None, clean),
        runs(middle, second, after, fault, clean),
    ensures
        runs(before, first + second, after, fault, clean),
    decreases second.len(),
{
    if second.len() == 0 {
        assert(first + second =~= first);
    } else {
        let m = lemma_runs_pop(middle, second, after, fault, clean);
        lemma_runs_concat(before, first, middle, second.drop_last(), m, None, clean);
        lemma_runs_push(
            before,
            first + second.drop_last(),
            m,
            second.last(),
            after,
            fault,
            clean,
        );
        assert((first + second.drop_last()).push(second.last()) =~= first + second);
    }
}

/// Each call of a series finds the chip as the calls before it left it. If the
/// series is clean, an encrypting write finds its block erased.
pub proof fn law_each_call_lands_on_erased<H: FlashHardware>(
    before: H,
    calls: Seq<Call>,
    after: H,
    fault: Option<FlashError>,
    i: int,
) -> (middle: H)
    requires
        runs(before, calls, after, fault, true),
        0 <= i < calls.len(),
    ensures
        runs(before, calls.take(i), middle, None, true),
        lands_on_erased(middle@, calls[i]),
    decreases calls.len(),
{
    let m = lemma_runs_pop(before, calls, after, fault, true);
    if i == calls.len() - 1 {
        assert(calls.take(i) =~= calls.drop_last());
        m
    } else {
        assert(calls.drop_last().take(i) =~= calls.take(i));
        law_each_call_lands_on_erased(before, calls.drop_last(), m, None, i)
    }
}

/// Work fails only where a call to the chip fails, and with the fault of that
/// call. Where no call fails, the work succeeds.
pub proof fn law_fault_of_a_call<H: FlashHardware>(
    before: H,
    after: H,
    fault: Option<FlashError>,
    clean: bool,
    sector: int,
    sectors: Set<int>,
)
    requires
        works_in(before, after, fault, clean, sector, sectors),
    ensures
        fault is Some ==> exists|middle: H, call: Call|
            #![trigger answers(middle, call, after, fault)]
            answers(middle, call, after, fault) && keeps_to(call, sector, sectors) && works_in(
                before,
                middle,
                None,
                clean,
                sector,
                sectors,
            ),
{
    if fault is Some {
        let calls = choose|calls: Seq<Call>| #[trigger]
            runs(before, calls, after, fault, clean) && all_keep_to(calls, sector, sectors);
        let middle = lemma_runs_pop(before, calls, after, fault, clean);
        assert(keeps_to(calls[calls.len() - 1], sector, sectors));
        assert forall|i: int| 0 <= i < calls.drop_last().len() implies keeps_to(
            #[trigger] calls.drop_last()[i],
            sector,
            sectors,
        ) by {
            assert(calls.drop_last()[i] == calls[i]);
        }
        assert(works_in(before, middle, None, clean, sector, sectors));
    }
}

/// No call leaves the chip as it is.
pub proof fn lemma_works_idle<H: FlashHardware>(
    chip: H,
    clean: bool,
    sector: int,
    sectors: Set<int>,
)
    ensures
        works_in(chip, chip, None, clean, sector, sectors),
{
    assert(runs(chip, Seq::empty(), chip, None, clean));
}

/// One call more that keeps to the sectors.
pub proof fn lemma_works_push<H: FlashHardware>(
    before: H,
    middle: H,
    call: Call,
    after: H,
    fault: Option<FlashError>,
    clean: bool,
    sector: int,
    sectors: Set<int>,
)
    requires
        works_in(before, middle, None, clean, sector, sectors),
        answers(middle, call, after, fault),
        clean ==> lands_on_erased(middle@, call),
        keeps_to(call, sector, sectors),
    ensures
        works_in(before, after, fault, clean, sector, sectors),
{
    let calls = choose|calls: Seq<Call>| #[trigger]
        runs(before, calls, middle, None, clean) && all_keep_to(calls, sector, sectors);
    lemma_runs_push(before, calls, middle, call, after, fault, clean);
}

/// Work whose encrypting writes land on erased blocks, in some of the sectors,
/// is work in the sectors.
pub proof fn lemma_works_weaken<H: FlashHardware>(
    before: H,
    after: H,
    fault: Option<FlashError>,
    careful: bool,
    clean: bool,
    sector: int,
    some: Set<int>,
    sectors: Set<int>,
)
    requires
        works_in(before, after, fault, careful, sector, some),
        clean ==> careful,
        some.subset_of(sectors),
    ensures
        works_in(before, after, fault, clean, sector, sectors),
{
    let calls = choose|calls: Seq<Call>| #[trigger]
        runs(before, calls, after, fault, careful) && all_keep_to(calls, sector, some);
    lemma_runs_weaken(before, calls, after, fault, careful, clean);
}

/// Calls whose encrypting writes land on erased blocks are calls.
pub proof fn lemma_runs_weaken<H: FlashHardware>(
    before: H,
    calls: Seq<Call>,
    after: H,
    fault: Option<FlashError>,
    careful: bool,
    clean: bool,
)
    requires
        runs(before, calls, after, fault, careful),
        clean ==> careful,
    ensures
        runs(before, calls, after, fault, clean),
    decreases calls.len(),
{
    if calls.len() > 0 {
        let m = lemma_runs_pop(before, calls, after, fault, careful);
        lemma_runs_weaken(before, calls.drop_last(), m, None, careful, clean);
        assert(answers(m, calls.last(), after, fault));
    }
}

/// More work, in some of the sectors.
pub proof fn lemma_works_on<H: FlashHardware>(
    before: H,
    middle: H,
    after: H,
    fault: Option<FlashError>,
    clean: bool,
    sector: int,
    some: Set<int>,
    sectors: Set<int>,
)
    requires
        works_in(before, middle, None, clean, sector, sectors),
        works_in(middle, after, fault, clean, sector, some),
        some.subset_of(sectors),
    ensures
        works_in(before, after, fault, clean, sector, sectors),
{
    let first = choose|calls: Seq<Call>| #[trigger]
        runs(before, calls, middle, None, clean) && all_keep_to(calls, sector, sectors);
    let second = choose|calls: Seq<Call>| #[trigger]
        runs(middle, calls, after, fault, clean) && all_keep_to(calls, sector, some);
    lemma_runs_concat(before, first, middle, second, after, fault, clean);
    assert forall|i: int| 0 <= i < (first + second).len() implies keeps_to(
        #[trigger] (first + second)[i],
        sector,
        sectors,
    ) by {
        if i < first.len() {
            assert((first + second)[i] == first[i]);
        } else {
            assert((first + second)[i] == second[i - first.len()]);
        }
    }
}

/// What follows a plan is work in its sectors.
pub proof fn lemma_follows_works<H: FlashHardware>(
    before: H,
    after: H,
    fault: Option<FlashError>,
    clean: bool,
    sector: int,
    sectors: Set<int>,
    plan: Seq<Step>,
)
    requires
        follows(before, after, fault, clean, sector, sectors, plan),
    ensures
        works_in(before, after, fault, clean, sector, sectors),
{
    let calls = choose|calls: Seq<Call>| #[trigger]
        runs(before, calls, after, fault, clean) && all_keep_to(calls, sector, sectors)
            && steps_of(calls).is_prefix_of(plan) && (fault is None ==> steps_of(calls) == plan);
    assert(runs(before, calls, after, fault, clean));
}

/// No call follows an empty plan.
pub proof fn lemma_follows_idle<H: FlashHardware>(
    chip: H,
    clean: bool,
    sector: int,
    sectors: Set<int>,
)
    ensures
        follows(chip, chip, None, clean, sector, sectors, Seq::empty()),
{
    let calls: Seq<Call> = Seq::empty();
    assert(runs(chip, calls, chip, None, clean));
    assert(steps_of(calls) =~= Seq::empty());
}

/// One call more that keeps to the sectors; if it fails, more may be planned.
pub proof fn lemma_follows_push<H: FlashHardware>(
    before: H,
    middle: H,
    call: Call,
    after: H,
    fault: Option<FlashError>,
    clean: bool,
    sector: int,
    sectors: Set<int>,
    plan: Seq<Step>,
)
    requires
        follows(before, middle, None, clean, sector, sectors, plan),
        answers(middle, call, after, fault),
        clean ==> lands_on_erased(middle@, call),
        keeps_to(call, sector, sectors),
    ensures
        follows(before, after, fault, clean, sector, sectors, plan.push(step_of(call))),
{
    let calls = choose|calls: Seq<Call>| #[trigger]
        runs(before, calls, middle, None, clean) && all_keep_to(calls, sector, sectors)
            && steps_of(calls).is_prefix_of(plan) && steps_of(calls) == plan;
    lemma_runs_push(before, calls, middle, call, after, fault, clean);
    assert(steps_of(calls.push(call)) =~= plan.push(step_of(call)));
}

/// What follows one plan, and then, in some of the sectors, another one,
/// follows both.
pub proof fn lemma_follows_on<H: FlashHardware>(
    before: H,
    middle: H,
    after: H,
    fault: Option<FlashError>,
    clean: bool,
    sector: int,
    some: Set<int>,
    sectors: Set<int>,
    first: Seq<Step>,
    second: Seq<Step>,
)
    requires
        follows(before, middle, None, clean, sector, sectors, first),
        follows(middle, after, fault, clean, sector, some, second),
        some.subset_of(sectors),
    ensures
        follows(before, after, fault, clean, sector, sectors, first + second),
{
    let one = choose|calls: Seq<Call>| #[trigger]
        runs(before, calls, middle, None, clean) && all_keep_to(calls, sector, sectors)
            && steps_of(calls).is_prefix_of(first) && steps_of(calls) == first;
    let two = choose|calls: Seq<Call>| #[trigger]
        runs(middle, calls, after, fault, clean) && all_keep_to(calls, sector, some)
            && steps_of(calls).is_prefix_of(second) && (fault is None ==> steps_of(calls)
            == second);
    lemma_runs_concat(before, one, middle, two, after, fault, clean);
    assert forall|i: int| 0 <= i < (one + two).len() implies keeps_to(
        #[trigger] (one + two)[i],
        sector,
        sectors,
    ) by {
        if i < one.len() {
            assert((one + two)[i] == one[i]);
        } else {
            assert((one + two)[i] == two[i - one.len()]);
        }
    }
    assert(steps_of(one + two) =~= first + steps_of(two));
    assert(steps_of(one + two).is_prefix_of(first + second)) by {
        assert((first + second).subrange(0, (one + two).len() as int) =~= first + second.subrange(
            0,
            two.len() as int,
        ));
    }
}

/// What follows a plan with care, in some of the sectors, follows it in the
/// sectors. What has failed also follows a plan that goes on.
pub proof fn lemma_follows_weaken<H: FlashHardware>(
    before: H,
    after: H,
    fault: Option<FlashError>,
    careful: bool,
    clean: bool,
    sector: int,
    some: Set<int>,
    sectors: Set<int>,
    plan: Seq<Step>,
    longer: Seq<Step>,
)
    requires
        follows(before, after, fault, careful, sector, some, plan),
        clean ==> careful,
        some.subset_of(sectors),
        plan == longer || fault is Some && plan.is_prefix_of(longer),
    ensures
        follows(before, after, fault, clean, sector, sectors, longer),
{
    let calls = choose|calls: Seq<Call>| #[trigger]
        runs(before, calls, after, fault, careful) && all_keep_to(calls, sector, some)
            && steps_of(calls).is_prefix_of(plan) && (fault is None ==> steps_of(calls) == plan);
    lemma_runs_weaken(before, calls, after, fault, careful, clean);
    assert(all_keep_to(calls, sector, sectors));
    assert(steps_of(calls).is_prefix_of(longer)) by {
        let n = steps_of(calls).len() as int;
        assert(longer.subrange(0, n) =~= plan.subrange(0, n));
    }
}

} // verus!
