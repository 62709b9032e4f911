//! A validated barcode representation, independent of the generators.

use crate::error::{Error, Result};
use crate::sym::code11::{code11_modules, Code11};
use crate::sym::code128::{code128_modules, Code128};
use crate::sym::code39::{code39_modules, Code39};
use crate::sym::code93::{code93_modules, Code93};
use crate::sym::ean13::{ean13_modules, EAN13};
use crate::sym::ean8::{ean8_modules, EAN8};
use crate::sym::ean_supp::{eansupp_modules, EANSUPP};
use crate::sym::helpers::is_binary;
use crate::sym::tf::{tf_modules, TF};
use crate::sym::upca::{upca_modules, UPCA};
use std::sync::Arc;
use vstd::prelude::*;

verus! {

/// The largest number of modules a barcode representation may hold.
pub const MAX_MODULES: usize = 100_000;

/// Position of the first module of `s`, at or after `from`, that is neither `0` nor `1`.
pub open spec fn first_non_binary(s: Seq<u8>, from: int) -> Option<int>
    decreases s.len() - from,
{
    if from < 0 || from >= s.len() {
        None
    } else if s[from] > 1 {
        Some(from)
    } else {
        first_non_binary(s, from + 1)
    }
}

/// The outcome of validating the modules `s`: an empty representation is too short, one
/// over [`MAX_MODULES`] exceeds the resource limit, and otherwise the first module that is
/// not binary is reported.
pub open spec fn spec_validate_modules(s: Seq<u8>) -> core::result::Result<(), Error> {
    if s.len() == 0 {
        Err(Error::Length { min: 1, max: None, found: 0 })
    } else if s.len() > MAX_MODULES {
        Err(
            Error::ResourceLimit {
                resource: "modül sayısı",
                requested: s.len() as u64,
                maximum: MAX_MODULES as u64,
            },
        )
    } else {
        match first_non_binary(s, 0) {
            Some(i) => Err(Error::InvalidEncoding { index: i as usize, value: s[i] }),
            None => Ok(()),
        }
    }
}

/// `s` is a valid module representation: one to [`MAX_MODULES`] modules, each `0` or `1`.
pub open spec fn valid_modules(s: Seq<u8>) -> bool {
    &&& 1 <= s.len() <= MAX_MODULES
    &&& is_binary(s)
}

proof fn lemma_first_non_binary_none(s: Seq<u8>, from: int)
    requires
        0 <= from,
    ensures
        first_non_binary(s, from) is None <==> forall|j: int| from <= j < s.len() ==> #[trigger] s[j]
            <= 1,
        first_non_binary(s, from) matches Some(i) ==> from <= i < s.len() && s[i] > 1,
    decreases s.len() - from,
{
    if from < s.len() {
        lemma_first_non_binary_none(s, from + 1);
    }
}

/// Validation succeeds exactly on the valid module representations.
pub proof fn lemma_validate_modules_ok(s: Seq<u8>)
    ensures
        spec_validate_modules(s) is Ok <==> valid_modules(s),
{
    lemma_first_non_binary_none(s, 0);
}

/// Checks that `modules` is a valid module representation.
pub fn validate_modules(modules: &[u8]) -> (r: Result<()>)
    ensures
        r == spec_validate_modules(modules@),
{
    let len = modules.len();
    if len == 0 {
        return Err(Error::length(1, None, 0));
    }
    if len > MAX_MODULES {
        return Err(
            Error::ResourceLimit {
                resource: "modül sayısı",
                requested: len as u64,
                maximum: MAX_MODULES as u64,
            },
        );
    }
    let mut i: usize = 0;
    while i < len
        invariant
            len == modules@.len(),
            1 <= len <= MAX_MODULES,
            i <= len,
            first_non_binary(modules@, 0) == first_non_binary(modules@, i as int),
        decreases len - i,
    {
        let value = modules[i];
        if value > 1 {
            return Err(Error::InvalidEncoding { index: i, value });
        }
        i += 1;
    }
    Ok(())
}

/// Makes another pointer to the modules that `shared` points to, through `Arc::clone`: the
/// new pointer reaches the same, equal modules.
#[verifier::external_body]
fn share(shared: &Arc<Vec<u8>>) -> (copy: Arc<Vec<u8>>)
    ensures
        copy@ == shared@,
{
    Arc::clone(shared)
}

/// Tells whether `a` and `b` point to the same allocation, through `Arc::ptr_eq`. Two
/// pointers to one allocation point to equal modules; when the allocations differ nothing is
/// said of the modules, and which allocation a pointer reaches is not stated.
#[verifier::external_body]
fn same_allocation(a: &Arc<Vec<u8>>, b: &Arc<Vec<u8>>) -> (same: bool)
    ensures
        same ==> a@ == b@,
{
    Arc::ptr_eq(a, b)
}

/// A barcode representation made of binary modules only; cloning it shares the modules.
#[derive(Debug, PartialEq, Eq, Hash)]
pub struct EncodedBarcode {
    modules: Arc<Vec<u8>>,
}

impl View for EncodedBarcode {
    type V = Seq<u8>;

    closed spec fn view(&self) -> Seq<u8> {
        self.modules@
    }
}

impl Clone for EncodedBarcode {
    fn clone(&self) -> (copy: Self)
        ensures
            copy@ == self@,
    {
        proof {
            use_type_invariant(self);
        }
        EncodedBarcode { modules: share(&self.modules) }
    }
}

impl EncodedBarcode {
    #[verifier::type_invariant]
    spec fn well_formed(self) -> bool {
        valid_modules(self.modules@)
    }

    /// Validates the given modules and wraps them in a new representation.
    pub fn new(modules: &[u8]) -> (encoded: Result<Self>)
        ensures
            match spec_validate_modules(modules@) {
                Ok(()) => encoded matches Ok(e) && e@ == modules@,
                Err(err) => encoded == Err::<Self, Error>(err),
            },
    {
        validate_modules(modules)?;
        proof {
            lemma_validate_modules_ok(modules@);
        }
        let mut owned: Vec<u8> = Vec::new();
        owned.extend_from_slice(modules);
        Ok(EncodedBarcode { modules: Arc::new(owned) })
    }

    /// Wraps modules that are already known to be valid.
    pub fn from_validated(modules: Vec<u8>) -> (encoded: Self)
        requires
            valid_modules(modules@),
        ensures
            encoded@ == modules@,
    {
        EncodedBarcode { modules: Arc::new(modules) }
    }

    /// The binary modules of the barcode.
    pub fn modules(&self) -> (modules: &[u8])
        ensures
            modules@ == self@,
            valid_modules(modules@),
    {
        proof {
            use_type_invariant(self);
        }
        self.modules.as_slice()
    }

    /// The number of modules.
    pub fn len(&self) -> (len: usize)
        ensures
            len == self@.len(),
    {
        self.modules.len()
    }

    /// Whether the representation holds no module; never the case for a validated one.
    pub fn is_empty(&self) -> (empty: bool)
        ensures
            empty == (self@.len() == 0),
            !empty,
    {
        proof {
            use_type_invariant(self);
        }
        self.modules.len() == 0
    }

    /// Whether `self` and `other` share one module allocation, as a clone does.
    pub fn shares_modules(&self, other: &EncodedBarcode) -> (shared: bool)
        ensures
            shared ==> self@ == other@,
    {
        same_allocation(&self.modules, &other.modules)
    }

    /// The runs of equal consecutive modules, from the first module on.
    pub fn runs(&self) -> (runs: ModuleRuns<'_>)
        ensures
            runs.all_modules() == self@,
            runs.position() == 0,
    {
        ModuleRuns { modules: self.modules.as_slice(), offset: 0 }
    }
}

impl AsRef<[u8]> for EncodedBarcode {
    fn as_ref(&self) -> &[u8] {
        self.modules()
    }
}

/// A run of equal consecutive barcode modules.
#[derive(Clone, Copy, Debug, PartialEq, Eq, Hash, Structural)]
pub struct ModuleRun {
    /// The binary value of the modules of the run.
    pub module: u8,
    /// Where the run starts in the barcode.
    pub offset: usize,
    /// How many modules the run holds.
    pub len: usize,
}

impl ModuleRun {
    /// The binary module value of the run.
    pub fn module(self) -> (module: u8)
        ensures
            module == self.module,
    {
        self.module
    }

    /// Where the run starts in the barcode.
    pub fn offset(self) -> (offset: usize)
        ensures
            offset == self.offset,
    {
        self.offset
    }

    /// How many modules the run holds.
    pub fn len(self) -> (len: usize)
        ensures
            len == self.len,
    {
        self.len
    }

    /// Whether the run holds no module.
    pub fn is_empty(self) -> (empty: bool)
        ensures
            empty == (self.len == 0),
    {
        self.len == 0
    }

    /// Whether the run is a bar to be drawn.
    pub fn is_bar(self) -> (bar: bool)
        ensures
            bar == (self.module == 1),
    {
        self.module == 1
    }
}

/// The number of modules equal to `s[offset]` from `offset` on, up to the first different
/// one.
pub open spec fn run_length(s: Seq<u8>, offset: int) -> nat
    decreases s.len() - offset,
{
    if offset < 0 || offset >= s.len() {
        0
    } else if offset + 1 < s.len() && s[offset + 1] == s[offset] {
        1 + run_length(s, offset + 1)
    } else {
        1
    }
}

/// The run of `s` that starts at `offset`.
pub open spec fn run_at(s: Seq<u8>, offset: int) -> ModuleRun {
    ModuleRun { module: s[offset], offset: offset as usize, len: run_length(s, offset) as usize }
}

/// Iterates over the barcode modules in runs of equal consecutive modules.
#[derive(Debug)]
pub struct ModuleRuns<'a> {
    modules: &'a [u8],
    offset: usize,
}

impl<'a> Clone for ModuleRuns<'a> {
    fn clone(&self) -> (copy: Self)
        ensures
            copy.all_modules() == self.all_modules(),
            copy.position() == self.position(),
    {
        ModuleRuns { modules: self.modules, offset: self.offset }
    }
}

impl<'a> ModuleRuns<'a> {
    /// The modules that are walked.
    pub closed spec fn all_modules(&self) -> Seq<u8> {
        self.modules@
    }

    /// Where the next run starts.
    pub closed spec fn position(&self) -> nat {
        self.offset as nat
    }

    /// The runs still to be walked, in order.
    pub open spec fn remaining_runs(&self) -> Seq<ModuleRun> {
        runs_from(self.all_modules(), self.position() as int)
    }

    /// The next run, or `None` once every module was visited.
    pub fn next(&mut self) -> (run: Option<ModuleRun>)
        ensures
            final(self).all_modules() == old(self).all_modules(),
            run matches Some(r) ==> old(self).remaining_runs() == seq![r]
                + final(self).remaining_runs(),
            run is None ==> old(self).remaining_runs().len() == 0,
            old(self).position() >= old(self).all_modules().len() ==> run is None
                && final(self).position() == old(self).position(),
            old(self).position() < old(self).all_modules().len() ==> run == Some(
                run_at(old(self).all_modules(), old(self).position() as int),
            ) && final(self).position() == old(self).position() + run_length(
                old(self).all_modules(),
                old(self).position() as int,
            ),
    {
        let n = self.modules.len();
        if self.offset >= n {
            return None;
        }
        let module = self.modules[self.offset];
        let mut end = self.offset + 1;
        while end < n && self.modules[end] == module
            invariant
                n == self.modules@.len(),
                self.offset < end <= n,
                module == self.modules@[self.offset as int],
                module == self.modules@[end - 1],
                run_length(self.modules@, self.offset as int) == (end - 1 - self.offset)
                    + run_length(self.modules@, end - 1),
            decreases n - end,
        {
            end += 1;
        }
        let run = ModuleRun { module, offset: self.offset, len: end - self.offset };
        proof {
            lemma_run_length(self.modules@, self.offset as int);
        }
        self.offset = end;
        Some(run)
    }

    /// All the runs still to be walked, by calling [`ModuleRuns::next`] until it gives `None`.
    pub fn collect_runs(self) -> (runs: Vec<ModuleRun>)
        ensures
            runs@ == self.remaining_runs(),
    {
        let ghost all = self.remaining_runs();
        let mut walker = self;
        let mut runs: Vec<ModuleRun> = Vec::new();
        loop
            invariant
                all == runs@ + walker.remaining_runs(),
            ensures
                all == runs@,
            decreases walker.all_modules().len() - walker.position(),
        {
            let ghost before = walker.remaining_runs();
            let ghost p = walker.position();
            match walker.next() {
                Some(run) => {
                    proof {
                        lemma_run_length(walker.all_modules(), p as int);
                    }
                    runs.push(run);
                    assert(all == runs@ + walker.remaining_runs());
                },
                None => {
                    assert(runs@ + before =~= runs@);
                    break;
                },
            }
        }
        runs
    }
}

/// A run that starts inside `s` holds at least one module, stays inside `s`, holds equal
/// modules only, and ends before a different module or at the end of `s`.
pub proof fn lemma_run_length(s: Seq<u8>, offset: int)
    requires
        0 <= offset < s.len(),
    ensures
        1 <= run_length(s, offset) <= s.len() - offset,
        forall|j: int| offset <= j < offset + run_length(s, offset) ==> #[trigger] s[j] == s[offset],
        offset + run_length(s, offset) < s.len() ==> s[offset + run_length(s, offset)] != s[offset],
    decreases s.len() - offset,
{
    if offset + 1 < s.len() && s[offset + 1] == s[offset] {
        lemma_run_length(s, offset + 1);
    }
}

/// The runs of `s` from `offset` on, in order.
pub open spec fn runs_from(s: Seq<u8>, offset: int) -> Seq<ModuleRun>
    decreases s.len() - offset,
{
    if offset < 0 || offset >= s.len() {
        Seq::empty()
    } else {
        proof {
            lemma_run_length(s, offset);
        }
        seq![run_at(s, offset)] + runs_from(s, offset + run_length(s, offset))
    }
}

/// The modules that the runs `runs` stand for, in order.
pub open spec fn expand(runs: Seq<ModuleRun>) -> Seq<u8>
    decreases runs.len(),
{
    if runs.len() == 0 {
        Seq::empty()
    } else {
        Seq::new(runs[0].len as nat, |_i: int| runs[0].module) + expand(runs.drop_first())
    }
}

/// The runs of `s` from `offset` on are the maximal groups of equal modules: each is
/// non-empty and holds equal modules, each starts where the previous one ended, two
/// neighbouring runs differ in their module, and together they spell `s` from `offset` on.
pub open spec fn runs_partition(s: Seq<u8>, offset: int, runs: Seq<ModuleRun>) -> bool {
    &&& expand(runs) == s.subrange(offset, s.len() as int)
    &&& runs.len() > 0 ==> runs[0].offset == offset
    &&& forall|k: int|
        0 <= k < runs.len() ==> {
            &&& (#[trigger] runs[k]).len >= 1
            &&& runs[k].offset + runs[k].len <= s.len()
            &&& forall|j: int|
                runs[k].offset <= j < runs[k].offset + runs[k].len ==> s[j] == runs[k].module
        }
    &&& forall|k: int|
        0 <= k < runs.len() - 1 ==> {
            &&& (#[trigger] runs[k + 1]).offset == runs[k].offset + runs[k].len
            &&& runs[k + 1].module != runs[k].module
        }
    &&& runs.len() > 0 ==> runs.last().offset + runs.last().len == s.len()
    &&& forall|j: int| offset <= j < s.len() ==> #[trigger] covered(runs, j)
}

/// Some run of `runs` holds the module at position `j`.
pub open spec fn covered(runs: Seq<ModuleRun>, j: int) -> bool {
    exists|k: int| 0 <= k < runs.len() && #[trigger] runs[k].offset <= j < runs[k].offset + runs[k].len
}

proof fn lemma_runs_from_partition(s: Seq<u8>, offset: int)
    requires
        0 <= offset <= s.len(),
        s.len() <= usize::MAX,
    ensures
        runs_partition(s, offset, runs_from(s, offset)),
    decreases s.len() - offset,
{
    let runs = runs_from(s, offset);
    if offset == s.len() {
        assert(s.subrange(offset, s.len() as int) =~= Seq::<u8>::empty());
    } else {
        lemma_run_length(s, offset);
        let len = run_length(s, offset);
        let next = offset + len;
        lemma_runs_from_partition(s, next);
        let rest = runs_from(s, next);
        let head = run_at(s, offset);
        assert(runs == seq![head] + rest);
        assert(runs.drop_first() =~= rest);
        assert(Seq::new(head.len as nat, |_i: int| head.module) =~= s.subrange(offset, next));
        assert(s.subrange(offset, s.len() as int) =~= s.subrange(offset, next) + s.subrange(
            next,
            s.len() as int,
        ));
        assert forall|k: int| 0 <= k < runs.len() implies {
            &&& (#[trigger] runs[k]).len >= 1
            &&& runs[k].offset + runs[k].len <= s.len()
            &&& forall|j: int|
                runs[k].offset <= j < runs[k].offset + runs[k].len ==> s[j] == runs[k].module
        } by {
            if k > 0 {
                assert(runs[k] == rest[k - 1]);
            }
        }
        assert forall|k: int| 0 <= k < runs.len() - 1 implies {
            &&& (#[trigger] runs[k + 1]).offset == runs[k].offset + runs[k].len
            &&& runs[k + 1].module != runs[k].module
        } by {
            assert(runs[k + 1] == rest[k]);
            if k > 0 {
                assert(runs[k] == rest[k - 1]);
            } else {
                assert(rest[0].offset == next);
                assert(rest[0].module == s[next]);
            }
        }
        if rest.len() > 0 {
            assert(runs.last() == rest.last());
        }
        assert forall|j: int| offset <= j < s.len() implies #[trigger] covered(runs, j) by {
            if j < next {
                assert(runs[0].offset <= j < runs[0].offset + runs[0].len);
            } else {
                assert(covered(rest, j));
                let k = choose|k: int|
                    0 <= k < rest.len() && #[trigger] rest[k].offset <= j < rest[k].offset
                        + rest[k].len;
                assert(runs[k + 1] == rest[k]);
                assert(runs[k + 1].offset <= j < runs[k + 1].offset + runs[k + 1].len);
            }
        }
    }
}

/// Walking the runs of a barcode loses no module: they are the maximal groups of equal
/// consecutive modules, in order, starting at offset 0 and each starting where the
/// previous one ended, at least one for a non-empty barcode, each of a binary module when
/// the barcode is binary. [`EncodedBarcode::runs`] starts at `runs_from(modules, 0)` and
/// [`ModuleRuns::next`] yields these runs one by one.
pub proof fn lemma_runs_partition(s: Seq<u8>)
    requires
        s.len() <= usize::MAX,
    ensures
        runs_partition(s, 0, runs_from(s, 0)),
        expand(runs_from(s, 0)) == s,
        s.len() > 0 ==> runs_from(s, 0).len() >= 1,
        is_binary(s) ==> forall|k: int|
            0 <= k < runs_from(s, 0).len() ==> (#[trigger] runs_from(s, 0)[k]).module <= 1,
{
    lemma_runs_from_partition(s, 0);
    assert(s.subrange(0, s.len() as int) =~= s);
    let runs = runs_from(s, 0);
    if is_binary(s) {
        assert forall|k: int| 0 <= k < runs.len() implies (#[trigger] runs[k]).module <= 1 by {
            assert(s[runs[k].offset as int] == runs[k].module);
        }
    }
}

/// A validated symbology that converts into the generator-independent representation.
pub trait Barcode {
    /// The modules that the barcode encodes to.
    spec fn barcode_modules(&self) -> Seq<u8>;

    /// The validated binary representation of the barcode.
    fn encoded(&self) -> (encoded: EncodedBarcode)
        ensures
            encoded@ == self.barcode_modules(),
    ;
}

impl Barcode for Code11 {
    open spec fn barcode_modules(&self) -> Seq<u8> {
        code11_modules(self@)
    }

    fn encoded(&self) -> (encoded: EncodedBarcode) {
        EncodedBarcode::from_validated(self.encode())
    }
}

impl Barcode for Code128 {
    open spec fn barcode_modules(&self) -> Seq<u8> {
        code128_modules(self@)
    }

    fn encoded(&self) -> (encoded: EncodedBarcode) {
        EncodedBarcode::from_validated(self.encode())
    }
}

impl Barcode for Code39 {
    open spec fn barcode_modules(&self) -> Seq<u8> {
        code39_modules(self@, self.encodes_checksum())
    }

    fn encoded(&self) -> (encoded: EncodedBarcode) {
        EncodedBarcode::from_validated(self.encode())
    }
}

impl Barcode for Code93 {
    open spec fn barcode_modules(&self) -> Seq<u8> {
        code93_modules(self@)
    }

    fn encoded(&self) -> (encoded: EncodedBarcode) {
        EncodedBarcode::from_validated(self.encode())
    }
}

impl Barcode for EANSUPP {
    open spec fn barcode_modules(&self) -> Seq<u8> {
        eansupp_modules(self@)
    }

    fn encoded(&self) -> (encoded: EncodedBarcode) {
        EncodedBarcode::from_validated(self.encode())
    }
}

impl Barcode for EAN13 {
    open spec fn barcode_modules(&self) -> Seq<u8> {
        ean13_modules(self@)
    }

    fn encoded(&self) -> (encoded: EncodedBarcode) {
        EncodedBarcode::from_validated(self.encode())
    }
}

impl Barcode for EAN8 {
    open spec fn barcode_modules(&self) -> Seq<u8> {
        ean8_modules(self@)
    }

    fn encoded(&self) -> (encoded: EncodedBarcode) {
        EncodedBarcode::from_validated(self.encode())
    }
}

impl Barcode for TF {
    open spec fn barcode_modules(&self) -> Seq<u8> {
        tf_modules(self.is_interleaved(), self@)
    }

    fn encoded(&self) -> (encoded: EncodedBarcode) {
        EncodedBarcode::from_validated(self.encode())
    }
}

impl Barcode for UPCA {
    open spec fn barcode_modules(&self) -> Seq<u8> {
        upca_modules(self@)
    }

    fn encoded(&self) -> (encoded: EncodedBarcode) {
        EncodedBarcode::from_validated(self.encode())
    }
}

} // verus!
