//! The layout of a barcode element for the native GPUI tree, aligned to device pixels.
//!
//! This module decides what is drawn, in module units: the quiet zone on each side, the
//! total width in modules and the runs of bars. Turning module units into device pixels and
//! painting them is the element's work.

use crate::encoding::{covered, lemma_runs_partition, runs_from, EncodedBarcode, ModuleRun};
use crate::sym::helpers::is_binary;
use crate::error::{result_view, Error, Result};
use vstd::prelude::*;

verus! {

/// The configuration of a GPUI barcode element.
#[derive(Clone, Copy, Debug, PartialEq, Eq, Structural)]
pub struct GPUI {
    height: u32,
    quiet_zone: u32,
}

/// What a GPUI element draws, in module units.
#[derive(Debug)]
pub struct GpuiLayout {
    /// The height of the element in logical pixels.
    pub height: u32,
    /// The quiet zone on each side, in modules.
    pub quiet_zone: usize,
    /// The width in modules: the barcode and both quiet zones.
    pub total_modules: usize,
    /// The runs of bars, in order, by their offsets in the barcode.
    pub bars: Vec<ModuleRun>,
}

impl View for GpuiLayout {
    type V = (u32, int, int, Seq<ModuleRun>);

    open spec fn view(&self) -> (u32, int, int, Seq<ModuleRun>) {
        (self.height, self.quiet_zone as int, self.total_modules as int, self.bars@)
    }
}

/// What [`GPUI::generate_encoded`] lays out for the modules `modules`: the height, the quiet
/// zone, the width in modules with both quiet zones, and the runs of bars; the two quiet
/// zones and the total width must fit `usize`.
pub open spec fn spec_gpui_layout(gpui: GPUI, modules: Seq<u8>) -> core::result::Result<
    (u32, int, int, Seq<ModuleRun>),
    Error,
> {
    let quiet = gpui.spec_quiet_zone() as int;
    if quiet * 2 > usize::MAX {
        Err(Error::Dimension { reason: "GPUI sessiz alan toplamı usize aralığını aşıyor" })
    } else if modules.len() + quiet * 2 > usize::MAX {
        Err(Error::Dimension { reason: "GPUI toplam modül sayısı usize aralığını aşıyor" })
    } else {
        Ok((gpui.spec_height(), quiet, modules.len() + quiet * 2, bar_runs(modules)))
    }
}

/// The runs of bars of the modules `s`, in order.
pub open spec fn bar_runs(s: Seq<u8>) -> Seq<ModuleRun> {
    runs_from(s, 0).filter(|run: ModuleRun| run.module == 1)
}

impl GPUI {
    /// The default quiet zone on each side, in modules.
    pub const DEFAULT_QUIET_ZONE: u32 = 12;

    /// The configured height in logical pixels.
    pub closed spec fn spec_height(self) -> u32 {
        self.height
    }

    /// The configured quiet zone on each side, in modules.
    pub closed spec fn spec_quiet_zone(self) -> u32 {
        self.quiet_zone
    }

    /// A generator of the given logical height, with the default quiet zone. A zero height
    /// is refused.
    pub fn new(height: u32) -> (gpui: Result<Self>)
        ensures
            height == 0 ==> gpui == Err::<Self, Error>(
                Error::Dimension { reason: "GPUI barkod yüksekliği sıfır olamaz" },
            ),
            height != 0 ==> (gpui matches Ok(g) && g.spec_height() == height
                && g.spec_quiet_zone() == Self::DEFAULT_QUIET_ZONE),
    {
        if height == 0 {
            return Err(Error::dimension("GPUI barkod yüksekliği sıfır olamaz"));
        }
        Ok(GPUI { height, quiet_zone: Self::DEFAULT_QUIET_ZONE })
    }

    /// Sets the quiet zone on each side, in modules.
    pub fn quiet_zone(self, modules: u32) -> (gpui: Self)
        ensures
            gpui.spec_height() == self.spec_height(),
            gpui.spec_quiet_zone() == modules,
    {
        GPUI { quiet_zone: modules, ..self }
    }

    /// The configured height in logical pixels.
    pub fn height(self) -> (height: u32)
        ensures
            height == self.spec_height(),
    {
        self.height
    }

    /// The quiet zone on each side, in modules.
    pub fn quiet_zone_modules(self) -> (modules: u32)
        ensures
            modules == self.spec_quiet_zone(),
    {
        self.quiet_zone
    }

    /// Validates the modules `barcode` and lays the element out.
    pub fn generate(self, barcode: &[u8]) -> (layout: Result<GpuiLayout>)
        ensures
            match crate::encoding::spec_validate_modules(barcode@) {
                Err(e) => layout == Err::<GpuiLayout, Error>(e),
                Ok(()) => result_view(layout) == spec_gpui_layout(self, barcode@),
            },
    {
        let encoded = EncodedBarcode::new(barcode)?;
        self.generate_encoded(encoded)
    }

    /// Lays out the element of an already validated barcode.
    pub fn generate_encoded(self, barcode: EncodedBarcode) -> (layout: Result<GpuiLayout>)
        ensures
            result_view(layout) == spec_gpui_layout(self, barcode@),
    {
        let quiet_zone = self.quiet_zone as usize;
        let quiet_modules = match quiet_zone.checked_mul(2) {
            Some(m) => m,
            None => {
                return Err(Error::dimension("GPUI sessiz alan toplamı usize aralığını aşıyor"));
            },
        };
        let total_modules = match barcode.len().checked_add(quiet_modules) {
            Some(t) => t,
            None => {
                return Err(Error::dimension("GPUI toplam modül sayısı usize aralığını aşıyor"));
            },
        };
        let modules = barcode.modules();
        let ghost s = modules@;
        let is_bar = |run: ModuleRun| run.module == 1;
        let mut runs = barcode.runs();
        let mut bars: Vec<ModuleRun> = Vec::new();
        proof {
            assert(s.len() <= crate::encoding::MAX_MODULES);
        }
        loop
            invariant
                runs.all_modules() == s,
                s == barcode@,
                s.len() <= crate::encoding::MAX_MODULES,
                runs.position() <= s.len(),
                bar_runs(s) == bars@ + runs_from(s, runs.position() as int).filter(
                    |run: ModuleRun| run.module == 1,
                ),
            ensures
                bar_runs(s) == bars@,
            decreases s.len() - runs.position(),
        {
            let ghost p = runs.position() as int;
            let next = runs.next();
            match next {
                None => {
                    assert(runs_from(s, p) =~= Seq::<ModuleRun>::empty());
                    assert(Seq::<ModuleRun>::empty().filter(|run: ModuleRun| run.module == 1)
                        =~= Seq::<ModuleRun>::empty());
                    assert(bars@ + Seq::<ModuleRun>::empty() =~= bars@);
                    break;
                },
                Some(run) => {
                    proof {
                        crate::encoding::lemma_run_length(s, p);
                        let rest = runs_from(s, p + crate::encoding::run_length(s, p));
                        let f = |run: ModuleRun| run.module == 1;
                        assert(runs_from(s, p) == seq![run] + rest);
                        Seq::filter_distributes_over_add(seq![run], rest, f);
                        reveal_with_fuel(Seq::filter, 2);
                        assert(seq![run].drop_last() =~= Seq::<ModuleRun>::empty());
                    }
                    if run.is_bar() {
                        bars.push(run);
                        proof {
                            let f = |run: ModuleRun| run.module == 1;
                            assert(seq![run].filter(f) =~= seq![run]);
                        }
                    } else {
                        proof {
                            let f = |run: ModuleRun| run.module == 1;
                            assert(seq![run].filter(f) =~= Seq::<ModuleRun>::empty());
                        }
                    }
                },
            }
        }
        Ok(GpuiLayout { height: self.height, quiet_zone, total_modules, bars })
    }
}

/// The element paints each maximal group of consecutive bars as one rectangle: every run it
/// paints holds bars only and is bordered by spaces or the ends of the barcode, and every
/// bar module lies in one of the painted runs.
pub proof fn lemma_bar_runs_maximal(s: Seq<u8>)
    requires
        s.len() <= usize::MAX,
        is_binary(s),
    ensures
        forall|run: ModuleRun| #[trigger]
            bar_runs(s).contains(run) ==> {
                &&& run.module == 1
                &&& run.len >= 1
                &&& run.offset + run.len <= s.len()
                &&& forall|j: int| run.offset <= j < run.offset + run.len ==> s[j] == 1
                &&& (run.offset == 0 || s[run.offset - 1] == 0)
                &&& (run.offset + run.len == s.len() || s[run.offset + run.len] == 0)
            },
        forall|j: int| 0 <= j < s.len() && s[j] == 1 ==> #[trigger] covered(bar_runs(s), j),
{
    let runs = runs_from(s, 0);
    let f = |run: ModuleRun| run.module == 1;
    let bars = runs.filter(f);
    lemma_runs_partition(s);
    assert forall|run: ModuleRun| #[trigger] bar_runs(s).contains(run) implies {
        &&& run.module == 1
        &&& run.len >= 1
        &&& run.offset + run.len <= s.len()
        &&& forall|j: int| run.offset <= j < run.offset + run.len ==> s[j] == 1
        &&& (run.offset == 0 || s[run.offset - 1] == 0)
        &&& (run.offset + run.len == s.len() || s[run.offset + run.len] == 0)
    } by {
        assert(bars.contains(run));
        let i = choose|i: int| 0 <= i < bars.len() && bars[i] == run;
        runs.lemma_filter_pred(f, i);
        runs.lemma_filter_contains_rev(f, run);
        let k = choose|k: int| 0 <= k < runs.len() && runs[k] == run;
        assert(runs[k].len >= 1);
        if run.offset > 0 {
            assert(k > 0);
            let p = k - 1;
            assert(runs[p + 1].offset == runs[p].offset + runs[p].len);
            assert(runs[p + 1].module != runs[p].module);
            assert(runs[p].len >= 1);
            assert(s[run.offset - 1] == runs[p].module);
            assert(s[run.offset - 1] <= 1);
        }
        if run.offset + run.len < s.len() {
            assert(k < runs.len() - 1);
            assert(runs[k + 1].offset == run.offset + run.len);
            assert(runs[k + 1].module != runs[k].module);
            assert(runs[k + 1].len >= 1);
            assert(s[run.offset + run.len] == runs[k + 1].module);
            assert(s[run.offset + run.len] <= 1);
        }
    }
    assert forall|j: int| 0 <= j < s.len() && s[j] == 1 implies #[trigger] covered(bar_runs(s), j) by {
        assert(covered(runs, j));
        let k = choose|k: int| 0 <= k < runs.len() && #[trigger] runs[k].offset <= j < runs[k].offset
            + runs[k].len;
        assert(runs[k].module == s[j]);
        runs.lemma_filter_contains(f, k);
        let i = choose|i: int| 0 <= i < bars.len() && bars[i] == runs[k];
        assert(bars[i].offset <= j < bars[i].offset + bars[i].len);
    }
}

} // verus!
