//! The camera's views and lock.
use vstd::prelude::*;

verus! {

/// Whether the user may turn the camera.
#[derive(Clone, Copy, Debug, PartialEq, Eq, Structural)]
pub enum CameraLock {
    Unlocked,
    Locked,
}

impl Default for CameraLock {
    fn default() -> (l: Self)
        ensures
            l == CameraLock::Unlocked,
    {
        CameraLock::Unlocked
    }
}

/// The camera's view: free (perspective) or along one of the five fixed
/// directions (orthographic).
#[derive(Clone, Copy, Debug, PartialEq, Eq, Structural)]
pub enum CameraView {
    Free,
    Top,
    Left,
    Right,
    Front,
    Back,
}

impl Default for CameraView {
    fn default() -> (v: Self)
        ensures
            v == CameraView::Free,
    {
        CameraView::Free
    }
}

/// The name of a view.
pub open spec fn spec_view_name(v: CameraView) -> Seq<char> {
    match v {
        CameraView::Free => "Free"@,
        CameraView::Top => "Top"@,
        CameraView::Left => "Left"@,
        CameraView::Right => "Right"@,
        CameraView::Front => "Front"@,
        CameraView::Back => "Back"@,
    }
}

/// Every view, in menu order.
pub open spec fn spec_view_list() -> Seq<CameraView> {
    seq![
        CameraView::Free,
        CameraView::Top,
        CameraView::Left,
        CameraView::Right,
        CameraView::Front,
        CameraView::Back,
    ]
}

impl CameraView {
    /// The number of views.
    pub const LEN: usize = 6;

    /// Every view, in menu order.
    pub fn list() -> (v: [CameraView; 6])
        ensures
            v@ == spec_view_list(),
    {
        let v = [
            CameraView::Free,
            CameraView::Top,
            CameraView::Left,
            CameraView::Right,
            CameraView::Front,
            CameraView::Back,
        ];
        assert(v@ =~= spec_view_list());
        v
    }

    /// The name of the view.
    pub fn to_string(&self) -> (s: String)
        ensures
            s@ == spec_view_name(*self),
    {
        match self {
            CameraView::Free => String::from_str("Free"),
            CameraView::Top => String::from_str("Top"),
            CameraView::Left => String::from_str("Left"),
            CameraView::Right => String::from_str("Right"),
            CameraView::Front => String::from_str("Front"),
            CameraView::Back => String::from_str("Back"),
        }
    }

    /// Whether the view is orthographic (every view but the free one).
    pub fn is_orthographic(&self) -> (r: bool)
        ensures
            r == (*self != CameraView::Free),
    {
        match self {
            CameraView::Free => false,
            _ => true,
        }
    }

    /// The views offered below the current one in the expanded menu: every
    /// view but `self`, in menu order.
    pub fn others(&self) -> (v: Vec<CameraView>)
        ensures
            v@ == spec_view_list().filter(|w: CameraView| w != *self),
    {
        let list = CameraView::list();
        let mut v: Vec<CameraView> = Vec::with_capacity(CameraView::LEN);
        let mut i: usize = 0;
        while i < 6
            invariant
                i <= 6,
                list@ == spec_view_list(),
                v@ == spec_view_list().take(i as int).filter(|w: CameraView| w != *self),
            decreases 6 - i,
        {
            proof {
                reveal(Seq::filter);
                assert(spec_view_list().take((i + 1) as int).drop_last() =~= spec_view_list().take(
                    i as int,
                ));
            }
            if list[i] != *self {
                v.push(list[i]);
            }
            i = i + 1;
        }
        proof {
            assert(spec_view_list().take(6) =~= spec_view_list());
        }
        v
    }
}

} // verus!
