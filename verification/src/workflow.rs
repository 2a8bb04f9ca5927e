//! The steps of creating, removing and changing an element. Each request is a
//! small machine: given what the last query or write gave, it says which
//! query or write comes next, or what the request is answered. The service
//! performs the actions and feeds the results back in.
use vstd::prelude::*;
use crate::error::{AppError, ErrorKind};
use crate::models::{CreateElement, DeleteMode, DeleteRequest, Element, ElementView, UpdateElement};
use crate::routes::{ParentRow, allocated_serial, check_parent, tidy_create, tidy_update};
use crate::text::trim;
use crate::validation::{ElementInput, same_text, validate_element, validation_outcome};

verus! {

// ---------------------------------------------------------------------------
// Removing an element
// ---------------------------------------------------------------------------

/// Where the removal of an element stands.
#[derive(PartialEq, Eq, Structural, Clone, Copy, Debug)]
pub enum RemovalStage {
    /// The element is being read.
    Fetching,
    /// Its live children are being counted; `parent` is its own parent.
    Counting { parent: Option<i64> },
    /// The children are to go to `target`, which must be a live container.
    CheckingTarget { target: i64 },
    /// ... and must not lie inside the element.
    CheckingPlace { target: i64 },
    /// The children are being moved.
    Moving,
    /// The live descendants are being removed.
    Cascading,
    /// The element itself is being marked deleted; `deleted` elements in all.
    Marking { deleted: usize },
    /// The request has been answered.
    Finished,
}

/// What the last action of a removal gave.
#[derive(Debug)]
pub enum RemovalEvent {
    /// The element read, if there is one with the serial.
    Found(Option<Element>),
    /// The number of its live children.
    Counted(i64),
    /// The answer to a yes-or-no query.
    Answered(bool),
    /// A write took place, affecting this many rows.
    Written(usize),
}

/// What a removal does next.
#[derive(Debug)]
pub enum RemovalAction {
    /// Read the element.
    FetchElement,
    /// Count the element's live children.
    CountChildren,
    /// Ask whether the target is a live container.
    CheckTargetIsContainer(i64),
    /// Ask whether the target lies among the element's live descendants.
    CheckTargetIsInside(i64),
    /// Give the element's live children this parent.
    MoveChildren(Option<i64>),
    /// Mark all of the element's live descendants deleted.
    RemoveDescendants,
    /// Mark the element deleted.
    MarkDeleted,
    /// Answer the request: the number of elements deleted, or the error.
    Reply(Result<usize, AppError>),
}

/// The removal of element `serial` as `request` asks it.
#[derive(Debug)]
pub struct Removal {
    pub serial: i64,
    pub request: DeleteRequest,
    pub stage: RemovalStage,
}

/// `a` answers the request with an error of kind `kind` that says `message`.
pub open spec fn replies_error(a: RemovalAction, kind: ErrorKind, message: Seq<char>) -> bool {
    match a {
        RemovalAction::Reply(Err(e)) => e.is(kind, message),
        _ => false,
    }
}

/// Whether `stage` waits for an event of the kind of `event`; a cascade can
/// report no more rows than leave room for the element itself in a count.
pub open spec fn removal_waits_for(stage: RemovalStage, event: RemovalEvent) -> bool {
    match stage {
        RemovalStage::Fetching => event is Found,
        RemovalStage::Counting { .. } => event is Counted,
        RemovalStage::CheckingTarget { .. } => event is Answered,
        RemovalStage::CheckingPlace { .. } => event is Answered,
        RemovalStage::Moving => event is Written,
        RemovalStage::Cascading => event matches RemovalEvent::Written(n) && n < usize::MAX,
        RemovalStage::Marking { .. } => event is Written,
        RemovalStage::Finished => false,
    }
}

/// One step of the removal of element `serial` with `mode` and `target`:
/// from `stage`, on `event`, it moves to `next` and does `a`.
pub open spec fn removal_step(
    serial: i64,
    mode: Option<DeleteMode>,
    target: Option<i64>,
    stage: RemovalStage,
    event: RemovalEvent,
    next: RemovalStage,
    a: RemovalAction,
) -> bool {
    match (stage, event) {
        (RemovalStage::Fetching, RemovalEvent::Found(None)) => next == RemovalStage::Finished
            && replies_error(a, ErrorKind::NotFound, "未找到该序列号"@),
        (RemovalStage::Fetching, RemovalEvent::Found(Some(e))) => if e.deleted_at is Some {
            next == RemovalStage::Finished && replies_error(a, ErrorKind::Conflict, "该元素已经删除"@)
        } else {
            next == (RemovalStage::Counting { parent: e.parent_serial }) && a is CountChildren
        },
        (RemovalStage::Counting { parent }, RemovalEvent::Counted(n)) => if n <= 0 {
            next == (RemovalStage::Marking { deleted: 1 }) && a is MarkDeleted
        } else {
            match mode {
                None => next == RemovalStage::Finished && replies_error(
                    a,
                    ErrorKind::BadRequest,
                    "非空容器必须明确选择子元素的处理方式"@,
                ),
                Some(DeleteMode::MoveToParent) => next == RemovalStage::Moving && a
                    == RemovalAction::MoveChildren(parent),
                Some(DeleteMode::MoveToContainer) => match target {
                    None => next == RemovalStage::Finished && replies_error(
                        a,
                        ErrorKind::BadRequest,
                        "需要提供目标容器序列号"@,
                    ),
                    Some(t) => if t == serial {
                        next == RemovalStage::Finished && replies_error(
                            a,
                            ErrorKind::BadRequest,
                            "目标容器不能是待删除容器自身"@,
                        )
                    } else {
                        next == (RemovalStage::CheckingTarget { target: t }) && a
                            == RemovalAction::CheckTargetIsContainer(t)
                    },
                },
                Some(DeleteMode::Cascade) => next == RemovalStage::Cascading && a is RemoveDescendants,
            }
        },
        (RemovalStage::CheckingTarget { target: t }, RemovalEvent::Answered(valid)) => if valid {
            next == (RemovalStage::CheckingPlace { target: t }) && a == RemovalAction::CheckTargetIsInside(t)
        } else {
            next == RemovalStage::Finished && replies_error(a, ErrorKind::BadRequest, "目标序列号不是可用容器"@)
        },
        (RemovalStage::CheckingPlace { target: t }, RemovalEvent::Answered(inside)) => if inside {
            next == RemovalStage::Finished && replies_error(
                a,
                ErrorKind::BadRequest,
                "目标容器不能位于待删除容器内部"@,
            )
        } else {
            next == RemovalStage::Moving && a == RemovalAction::MoveChildren(Some(t))
        },
        (RemovalStage::Moving, RemovalEvent::Written(_)) => next == (RemovalStage::Marking { deleted: 1 })
            && a is MarkDeleted,
        (RemovalStage::Cascading, RemovalEvent::Written(n)) => next == (RemovalStage::Marking {
            deleted: (1 + n) as usize,
        }) && a is MarkDeleted,
        (RemovalStage::Marking { deleted }, RemovalEvent::Written(_)) => next == RemovalStage::Finished
            && (a matches RemovalAction::Reply(Ok(d)) && d == deleted),
        _ => false,
    }
}

impl Removal {
    /// Starts the removal of element `serial`: the element is read first.
    pub fn start(serial: i64, request: DeleteRequest) -> (r: (Removal, RemovalAction))
        ensures
            r.0.serial == serial,
            r.0.request == request,
            r.0.stage == RemovalStage::Fetching,
            r.1 is FetchElement,
    {
        (Removal { serial, request, stage: RemovalStage::Fetching }, RemovalAction::FetchElement)
    }

    /// Takes in what the last action gave and says what comes next.
    pub fn step(&mut self, event: RemovalEvent) -> (a: RemovalAction)
        requires
            removal_waits_for(old(self).stage, event),
        ensures
            final(self).serial == old(self).serial,
            final(self).request == old(self).request,
            match (old(self).stage, event) {
                (RemovalStage::Fetching, RemovalEvent::Found(Some(e))) => e.deleted_at is None
                    ==> final(self).stage == (RemovalStage::Counting { parent: e.parent_serial }),
                (RemovalStage::Counting { parent }, RemovalEvent::Counted(n)) => n > 0
                    && old(self).request.mode == Some(DeleteMode::MoveToParent) ==> a
                    == RemovalAction::MoveChildren(parent),
                _ => true,
            },
            removal_step(
                old(self).serial,
                old(self).request.mode,
                old(self).request.target_serial,
                old(self).stage,
                event,
                final(self).stage,
                a,
            ),
    {
        match (self.stage, event) {
            (RemovalStage::Fetching, RemovalEvent::Found(found)) => {
                match found {
                    None => {
                        self.stage = RemovalStage::Finished;
                        RemovalAction::Reply(Err(AppError::new(ErrorKind::NotFound, "未找到该序列号")))
                    },
                    Some(element) => {
                        if element.deleted_at.is_some() {
                            self.stage = RemovalStage::Finished;
                            RemovalAction::Reply(Err(AppError::new(ErrorKind::Conflict, "该元素已经删除")))
                        } else {
                            self.stage = RemovalStage::Counting { parent: element.parent_serial };
                            RemovalAction::CountChildren
                        }
                    },
                }
            },
            (RemovalStage::Counting { parent }, RemovalEvent::Counted(n)) => {
                if n <= 0 {
                    self.stage = RemovalStage::Marking { deleted: 1 };
                    return RemovalAction::MarkDeleted;
                }
                match self.request.mode {
                    None => {
                        self.stage = RemovalStage::Finished;
                        RemovalAction::Reply(
                            Err(AppError::new(ErrorKind::BadRequest, "非空容器必须明确选择子元素的处理方式")),
                        )
                    },
                    Some(DeleteMode::MoveToParent) => {
                        self.stage = RemovalStage::Moving;
                        RemovalAction::MoveChildren(parent)
                    },
                    Some(DeleteMode::MoveToContainer) => match self.request.target_serial {
                        None => {
                            self.stage = RemovalStage::Finished;
                            RemovalAction::Reply(
                                Err(AppError::new(ErrorKind::BadRequest, "需要提供目标容器序列号")),
                            )
                        },
                        Some(t) => {
                            if t == self.serial {
                                self.stage = RemovalStage::Finished;
                                RemovalAction::Reply(
                                    Err(AppError::new(ErrorKind::BadRequest, "目标容器不能是待删除容器自身")),
                                )
                            } else {
                                self.stage = RemovalStage::CheckingTarget { target: t };
                                RemovalAction::CheckTargetIsContainer(t)
                            }
                        },
                    },
                    Some(DeleteMode::Cascade) => {
                        self.stage = RemovalStage::Cascading;
                        RemovalAction::RemoveDescendants
                    },
                }
            },
            (RemovalStage::CheckingTarget { target }, RemovalEvent::Answered(valid)) => {
                if valid {
                    self.stage = RemovalStage::CheckingPlace { target };
                    RemovalAction::CheckTargetIsInside(target)
                } else {
                    self.stage = RemovalStage::Finished;
                    RemovalAction::Reply(Err(AppError::new(ErrorKind::BadRequest, "目标序列号不是可用容器")))
                }
            },
            (RemovalStage::CheckingPlace { target }, RemovalEvent::Answered(inside)) => {
                if inside {
                    self.stage = RemovalStage::Finished;
                    RemovalAction::Reply(
                        Err(AppError::new(ErrorKind::BadRequest, "目标容器不能位于待删除容器内部")),
                    )
                } else {
                    self.stage = RemovalStage::Moving;
                    RemovalAction::MoveChildren(Some(target))
                }
            },
            (RemovalStage::Moving, RemovalEvent::Written(_)) => {
                self.stage = RemovalStage::Marking { deleted: 1 };
                RemovalAction::MarkDeleted
            },
            (RemovalStage::Cascading, RemovalEvent::Written(n)) => {
                self.stage = RemovalStage::Marking { deleted: 1 + n };
                RemovalAction::MarkDeleted
            },
            (RemovalStage::Marking { deleted }, RemovalEvent::Written(_)) => {
                self.stage = RemovalStage::Finished;
                RemovalAction::Reply(Ok(deleted))
            },
            _ => {
                proof {
                    assert(false);
                }
                RemovalAction::MarkDeleted
            },
        }
    }
}

} // verus!

verus! {

/// How far a removal at `stage` is from its answer, in steps at most.
pub open spec fn removal_rank(stage: RemovalStage) -> nat {
    match stage {
        RemovalStage::Fetching => 6,
        RemovalStage::Counting { .. } => 5,
        RemovalStage::CheckingTarget { .. } => 4,
        RemovalStage::CheckingPlace { .. } => 3,
        RemovalStage::Moving => 2,
        RemovalStage::Cascading => 2,
        RemovalStage::Marking { .. } => 1,
        RemovalStage::Finished => 0,
    }
}

/// Every step of a removal brings it closer to its answer, and the request is
/// answered exactly when the removal finishes.
pub proof fn law_removal_progresses(
    serial: i64,
    mode: Option<DeleteMode>,
    target: Option<i64>,
    stage: RemovalStage,
    event: RemovalEvent,
    next: RemovalStage,
    a: RemovalAction,
)
    requires
        removal_step(serial, mode, target, stage, event, next, a),
    ensures
        removal_rank(next) < removal_rank(stage),
        a is Reply <==> next == RemovalStage::Finished,
{
}

/// An element without live children is marked deleted straight away,
/// whatever the request says; a container with live children is removed
/// only when the request chooses what becomes of them.
pub proof fn law_children_need_a_choice(
    serial: i64,
    mode: Option<DeleteMode>,
    target: Option<i64>,
    parent: Option<i64>,
    count: i64,
    next: RemovalStage,
    a: RemovalAction,
)
    requires
        removal_step(
            serial,
            mode,
            target,
            RemovalStage::Counting { parent },
            RemovalEvent::Counted(count),
            next,
            a,
        ),
    ensures
        count <= 0 ==> a is MarkDeleted,
        count > 0 && mode is None ==> replies_error(
            a,
            ErrorKind::BadRequest,
            "非空容器必须明确选择子元素的处理方式"@,
        ),
{
}

/// Children are moved into a chosen container only once it has been found
/// to be a live container outside the element, and that check is made only
/// for a target other than the element itself.
pub proof fn law_target_checked_before_move(
    serial: i64,
    target: Option<i64>,
    stage: RemovalStage,
    event: RemovalEvent,
    next: RemovalStage,
    a: RemovalAction,
)
    requires
        removal_step(serial, Some(DeleteMode::MoveToContainer), target, stage, event, next, a),
    ensures
        a is MoveChildren ==> (stage matches RemovalStage::CheckingPlace { target: t } && event
            == RemovalEvent::Answered(false) && a == RemovalAction::MoveChildren(Some(t))),
        next matches RemovalStage::CheckingPlace { target: t } ==> stage == (RemovalStage::CheckingTarget {
            target: t,
        }) && event == RemovalEvent::Answered(true),
        next matches RemovalStage::CheckingTarget { target: t } ==> target == Some(t) && t != serial,
{
}

/// The element is marked deleted only once its children are dealt with, and
/// a removal that succeeds reports the element and, for a cascade, the
/// descendants it removed.
pub proof fn law_marked_after_children(
    serial: i64,
    mode: Option<DeleteMode>,
    target: Option<i64>,
    stage: RemovalStage,
    event: RemovalEvent,
    next: RemovalStage,
    a: RemovalAction,
)
    requires
        removal_waits_for(stage, event),
        removal_step(serial, mode, target, stage, event, next, a),
    ensures
        a is MarkDeleted ==> stage is Moving || stage is Cascading || (stage is Counting && (event matches RemovalEvent::Counted(n) && n <= 0)),
        next matches RemovalStage::Marking { deleted } ==> deleted == 1 || (stage is Cascading && (event matches RemovalEvent::Written(n) && deleted == 1 + n)),
        a matches RemovalAction::Reply(Ok(d)) ==> stage == (RemovalStage::Marking { deleted: d }),
{
}

} // verus!

verus! {

// ---------------------------------------------------------------------------
// Changing an element
// ---------------------------------------------------------------------------

/// Where the change of an element stands.
#[derive(PartialEq, Eq, Structural, Clone, Copy, Debug)]
pub enum EditStage {
    /// The element is being read.
    Fetching,
    /// A container that is to become an item: its live children are being
    /// looked for.
    CheckingChildren,
    /// The new parent is being read.
    FetchingParent { parent: i64 },
    /// The new parent is being looked for among the element's descendants.
    CheckingCycle { parent: i64 },
    /// The change is being written.
    Saving,
    /// The request has been answered.
    Finished,
}

/// What the last action of a change gave.
#[derive(Debug)]
pub enum EditEvent {
    /// The element read, if there is one with the serial.
    Found(Option<Element>),
    /// The answer to a yes-or-no query.
    Answered(bool),
    /// The new parent read, if there is one with its serial.
    ParentFound(Option<ParentRow>),
    /// The element as written.
    Saved(Element),
}

/// What a change does next.
#[derive(Debug)]
pub enum EditAction {
    /// Read the element.
    FetchElement,
    /// Ask whether the element has live children.
    CheckHasLiveChildren,
    /// Read the new parent.
    FetchParent(i64),
    /// Ask whether the new parent lies among the element's live descendants.
    CheckParentIsInside(i64),
    /// Write the change: the tidied fields and the normalized category letter.
    Save,
    /// Answer the request: the element as changed, or the error.
    Reply(Result<ElementView, AppError>),
}

/// The change of element `serial` to the fields of `input`; `tag_a` is the
/// normalized category letter once the fields are valid.
#[derive(Debug)]
pub struct Editing {
    pub serial: i64,
    pub input: UpdateElement,
    pub tag_a: String,
    pub stage: EditStage,
}

/// `after` is `before` with its name, description and unit trimmed.
pub open spec fn tidied(before: UpdateElement, after: UpdateElement) -> bool {
    &&& after.name@ == trim(before.name@)
    &&& after.description@ == trim(before.description@)
    &&& after.unit@ == trim(before.unit@)
    &&& after.kind == before.kind
    &&& after.tag_a == before.tag_a
    &&& after.tag_b == before.tag_b
    &&& after.tag_c == before.tag_c
    &&& after.quantity_bits == before.quantity_bits
    &&& after.parent_serial == before.parent_serial
}

/// `a` answers the change with an error of kind `kind` that says `message`.
pub open spec fn edit_replies_error(a: EditAction, kind: ErrorKind, message: Seq<char>) -> bool {
    match a {
        EditAction::Reply(Err(e)) => e.is(kind, message),
        _ => false,
    }
}

/// Once the kind may change: the new parent is read, or, with none, the
/// change is written.
pub open spec fn to_parent_step(input: UpdateElement, next: EditStage, a: EditAction) -> bool {
    match input.parent_serial {
        None => next == EditStage::Saving && a is Save,
        Some(p) => next == (EditStage::FetchingParent { parent: p }) && a == EditAction::FetchParent(p),
    }
}

/// Whether `stage` waits for an event of the kind of `event`.
pub open spec fn edit_waits_for(stage: EditStage, event: EditEvent) -> bool {
    match stage {
        EditStage::Fetching => event is Found,
        EditStage::CheckingChildren => event is Answered,
        EditStage::FetchingParent { .. } => event is ParentFound,
        EditStage::CheckingCycle { .. } => event is Answered,
        EditStage::Saving => event is Saved,
        EditStage::Finished => false,
    }
}

/// One step of the change of element `serial` to `input`: from `stage`, on
/// `event`, it moves to `next` and does `a`.
pub open spec fn edit_step(
    serial: i64,
    input: UpdateElement,
    stage: EditStage,
    event: EditEvent,
    next: EditStage,
    a: EditAction,
) -> bool {
    match (stage, event) {
        (EditStage::Fetching, EditEvent::Found(None)) => next == EditStage::Finished
            && edit_replies_error(a, ErrorKind::NotFound, "未找到该序列号"@),
        (EditStage::Fetching, EditEvent::Found(Some(e))) => if e.deleted_at is Some {
            next == EditStage::Finished && edit_replies_error(a, ErrorKind::Conflict, "请先恢复该元素再编辑"@)
        } else if e.kind@ == "container"@ && input.kind@ == "item"@ {
            next == EditStage::CheckingChildren && a is CheckHasLiveChildren
        } else {
            to_parent_step(input, next, a)
        },
        (EditStage::CheckingChildren, EditEvent::Answered(has_children)) => if has_children {
            next == EditStage::Finished && edit_replies_error(
                a,
                ErrorKind::BadRequest,
                "非空容器不能改为物品，请先移动或删除其中的元素"@,
            )
        } else {
            to_parent_step(input, next, a)
        },
        (EditStage::FetchingParent { parent: p }, EditEvent::ParentFound(row)) => match row {
            None => next == EditStage::Finished && edit_replies_error(
                a,
                ErrorKind::BadRequest,
                "父容器序列号不存在"@,
            ),
            Some(r) => if !(r.kind@ == "container"@ && !r.deleted) {
                next == EditStage::Finished && edit_replies_error(
                    a,
                    ErrorKind::BadRequest,
                    "父级必须是未删除的容器"@,
                )
            } else if p == serial {
                next == EditStage::Finished && edit_replies_error(a, ErrorKind::BadRequest, "元素不能放入自身"@)
            } else {
                next == (EditStage::CheckingCycle { parent: p }) && a == EditAction::CheckParentIsInside(p)
            },
        },
        (EditStage::CheckingCycle { parent: p }, EditEvent::Answered(inside)) => if inside {
            next == EditStage::Finished && edit_replies_error(
                a,
                ErrorKind::BadRequest,
                "不能将容器移动到其后代容器中"@,
            )
        } else {
            next == EditStage::Saving && a is Save
        },
        (EditStage::Saving, EditEvent::Saved(e)) => next == EditStage::Finished && (a matches EditAction::Reply(
            Ok(v),
        ) && v.shows(e)),
        _ => false,
    }
}

impl Editing {
    fn to_parent(&mut self) -> (a: EditAction)
        ensures
            final(self).serial == old(self).serial,
            final(self).input == old(self).input,
            final(self).tag_a == old(self).tag_a,
            to_parent_step(old(self).input, final(self).stage, a),
    {
        match self.input.parent_serial {
            None => {
                self.stage = EditStage::Saving;
                EditAction::Save
            },
            Some(p) => {
                self.stage = EditStage::FetchingParent { parent: p };
                EditAction::FetchParent(p)
            },
        }
    }

    /// Starts the change of element `serial` to `input`: the fields are
    /// validated first, and a valid request, with its text fields trimmed,
    /// reads the element next.
    pub fn start(serial: i64, input: UpdateElement) -> (r: (Editing, EditAction))
        ensures
            r.0.serial == serial,
            match validation_outcome(input.fields()) {
                Err(m) => r.0.stage == EditStage::Finished && edit_replies_error(r.1, ErrorKind::BadRequest, m),
                Ok(t) => r.0.stage == EditStage::Fetching && r.1 is FetchElement && r.0.tag_a@ == t
                    && tidied(input, r.0.input),
            },
    {
        match validate_element(&input) {
            Err(e) => (
                Editing { serial, input, tag_a: String::new(), stage: EditStage::Finished },
                EditAction::Reply(Err(e)),
            ),
            Ok(tag_a) => {
                let mut input = input;
                tidy_update(&mut input);
                (Editing { serial, input, tag_a, stage: EditStage::Fetching }, EditAction::FetchElement)
            },
        }
    }

    /// Takes in what the last action gave and says what comes next.
    pub fn step(&mut self, event: EditEvent) -> (a: EditAction)
        requires
            edit_waits_for(old(self).stage, event),
        ensures
            final(self).serial == old(self).serial,
            final(self).input == old(self).input,
            final(self).tag_a == old(self).tag_a,
            edit_step(old(self).serial, old(self).input, old(self).stage, event, final(self).stage, a),
    {
        match (self.stage, event) {
            (EditStage::Fetching, EditEvent::Found(found)) => match found {
                None => {
                    self.stage = EditStage::Finished;
                    EditAction::Reply(Err(AppError::new(ErrorKind::NotFound, "未找到该序列号")))
                },
                Some(current) => {
                    if current.deleted_at.is_some() {
                        self.stage = EditStage::Finished;
                        EditAction::Reply(Err(AppError::new(ErrorKind::Conflict, "请先恢复该元素再编辑")))
                    } else if same_text(current.kind.as_str(), "container") && same_text(
                        self.input.kind.as_str(),
                        "item",
                    ) {
                        self.stage = EditStage::CheckingChildren;
                        EditAction::CheckHasLiveChildren
                    } else {
                        self.to_parent()
                    }
                },
            },
            (EditStage::CheckingChildren, EditEvent::Answered(has_children)) => {
                if has_children {
                    self.stage = EditStage::Finished;
                    EditAction::Reply(
                        Err(AppError::new(ErrorKind::BadRequest, "非空容器不能改为物品，请先移动或删除其中的元素")),
                    )
                } else {
                    self.to_parent()
                }
            },
            (EditStage::FetchingParent { parent }, EditEvent::ParentFound(row)) => match row {
                None => {
                    self.stage = EditStage::Finished;
                    EditAction::Reply(Err(AppError::new(ErrorKind::BadRequest, "父容器序列号不存在")))
                },
                Some(r) => {
                    if !(same_text(r.kind.as_str(), "container") && !r.deleted) {
                        self.stage = EditStage::Finished;
                        EditAction::Reply(Err(AppError::new(ErrorKind::BadRequest, "父级必须是未删除的容器")))
                    } else if parent == self.serial {
                        self.stage = EditStage::Finished;
                        EditAction::Reply(Err(AppError::new(ErrorKind::BadRequest, "元素不能放入自身")))
                    } else {
                        self.stage = EditStage::CheckingCycle { parent };
                        EditAction::CheckParentIsInside(parent)
                    }
                },
            },
            (EditStage::CheckingCycle { parent }, EditEvent::Answered(inside)) => {
                if inside {
                    self.stage = EditStage::Finished;
                    EditAction::Reply(Err(AppError::new(ErrorKind::BadRequest, "不能将容器移动到其后代容器中")))
                } else {
                    self.stage = EditStage::Saving;
                    EditAction::Save
                }
            },
            (EditStage::Saving, EditEvent::Saved(element)) => {
                self.stage = EditStage::Finished;
                EditAction::Reply(Ok(ElementView::from_element(element)))
            },
            _ => {
                proof {
                    assert(false);
                }
                EditAction::Save
            },
        }
    }
}

} // verus!

verus! {

/// How far a change at `stage` is from its answer, in steps at most.
pub open spec fn edit_rank(stage: EditStage) -> nat {
    match stage {
        EditStage::Fetching => 5,
        EditStage::CheckingChildren => 4,
        EditStage::FetchingParent { .. } => 3,
        EditStage::CheckingCycle { .. } => 2,
        EditStage::Saving => 1,
        EditStage::Finished => 0,
    }
}

/// Every step of a change brings it closer to its answer, and the request is
/// answered exactly when the change finishes.
pub proof fn law_edit_progresses(
    serial: i64,
    input: UpdateElement,
    stage: EditStage,
    event: EditEvent,
    next: EditStage,
    a: EditAction,
)
    requires
        edit_step(serial, input, stage, event, next, a),
    ensures
        edit_rank(next) < edit_rank(stage),
        a is Reply <==> next == EditStage::Finished,
{
}

/// A container does not become an item while it has live children: such a
/// change looks for them first, and finding any refuses it.
pub proof fn law_nonempty_container_stays(
    serial: i64,
    input: UpdateElement,
    stage: EditStage,
    event: EditEvent,
    next: EditStage,
    a: EditAction,
)
    requires
        edit_step(serial, input, stage, event, next, a),
    ensures
        stage is Fetching && (event matches EditEvent::Found(Some(e)) && e.deleted_at is None
            && e.kind@ == "container"@) && input.kind@ == "item"@ ==> next is CheckingChildren,
        stage is CheckingChildren && event == EditEvent::Answered(true) ==> edit_replies_error(
            a,
            ErrorKind::BadRequest,
            "非空容器不能改为物品，请先移动或删除其中的元素"@,
        ),
        next is CheckingChildren ==> stage is Fetching && input.kind@ == "item"@,
{
}

/// An element gets a new parent only once that parent is found to be a live
/// container other than the element and outside it.
pub proof fn law_parent_checked_before_save(
    serial: i64,
    input: UpdateElement,
    stage: EditStage,
    event: EditEvent,
    next: EditStage,
    a: EditAction,
)
    requires
        edit_step(serial, input, stage, event, next, a),
    ensures
        a is Save && input.parent_serial is Some ==> stage is CheckingCycle && event == EditEvent::Answered(
            false,
        ),
        next matches EditStage::CheckingCycle { parent: q } ==> q != serial && stage == (EditStage::FetchingParent {
            parent: q,
        }) && (event matches EditEvent::ParentFound(Some(r)) && r.kind@ == "container"@ && !r.deleted),
        next matches EditStage::FetchingParent { parent: q } ==> input.parent_serial == Some(q),
{
}

} // verus!

verus! {

// ---------------------------------------------------------------------------
// Creating an element
// ---------------------------------------------------------------------------

/// Where the creation of an element stands.
#[derive(PartialEq, Eq, Structural, Clone, Copy, Debug)]
pub enum CreationStage {
    /// The parent is being read.
    CheckingParent { parent: i64 },
    /// A serial is being taken from the counter.
    Allocating,
    /// The element is being written under this serial.
    Inserting,
    /// The request has been answered.
    Finished,
}

/// What the last action of a creation gave.
#[derive(Debug)]
pub enum CreationEvent {
    /// The parent read, if there is one with its serial.
    ParentFound(Option<ParentRow>),
    /// The serial the counter gave, or none once all are used.
    Allocated(Option<i64>),
    /// The element as written.
    Saved(Element),
}

/// What a creation does next.
#[derive(Debug)]
pub enum CreationAction {
    /// Read the parent.
    FetchParent(i64),
    /// Take the next serial from the counter.
    AllocateSerial,
    /// Write the element under this serial, with the tidied fields and the
    /// normalized category letter.
    Insert(i64),
    /// Answer the request: the element as created, or the error.
    Reply(Result<ElementView, AppError>),
}

/// The creation of an element with the fields of `input`; `tag_a` is the
/// normalized category letter once the fields are valid.
#[derive(Debug)]
pub struct Creation {
    pub input: CreateElement,
    pub tag_a: String,
    pub stage: CreationStage,
}

/// `after` is `before` with its name, description and unit trimmed.
pub open spec fn tidied_new(before: CreateElement, after: CreateElement) -> bool {
    &&& after.name@ == trim(before.name@)
    &&& after.description@ == trim(before.description@)
    &&& after.unit@ == trim(before.unit@)
    &&& after.kind == before.kind
    &&& after.tag_a == before.tag_a
    &&& after.tag_b == before.tag_b
    &&& after.tag_c == before.tag_c
    &&& after.quantity_bits == before.quantity_bits
    &&& after.parent_serial == before.parent_serial
}

/// `a` answers the creation with an error of kind `kind` that says `message`.
pub open spec fn creation_replies_error(a: CreationAction, kind: ErrorKind, message: Seq<char>) -> bool {
    match a {
        CreationAction::Reply(Err(e)) => e.is(kind, message),
        _ => false,
    }
}

/// Whether `stage` waits for an event of the kind of `event`.
pub open spec fn creation_waits_for(stage: CreationStage, event: CreationEvent) -> bool {
    match stage {
        CreationStage::CheckingParent { .. } => event is ParentFound,
        CreationStage::Allocating => event is Allocated,
        CreationStage::Inserting => event is Saved,
        CreationStage::Finished => false,
    }
}

/// One step of a creation: from `stage`, on `event`, it moves to `next` and
/// does `a`.
pub open spec fn creation_step(stage: CreationStage, event: CreationEvent, next: CreationStage, a: CreationAction) -> bool {
    match (stage, event) {
        (CreationStage::CheckingParent { .. }, CreationEvent::ParentFound(row)) => match row {
            None => next == CreationStage::Finished && creation_replies_error(
                a,
                ErrorKind::BadRequest,
                "父容器序列号不存在"@,
            ),
            Some(r) => if r.kind@ == "container"@ && !r.deleted {
                next == CreationStage::Allocating && a is AllocateSerial
            } else {
                next == CreationStage::Finished && creation_replies_error(
                    a,
                    ErrorKind::BadRequest,
                    "父级必须是未删除的容器"@,
                )
            },
        },
        (CreationStage::Allocating, CreationEvent::Allocated(serial)) => match serial {
            None => next == CreationStage::Finished && creation_replies_error(
                a,
                ErrorKind::Conflict,
                "六位序列号已用尽"@,
            ),
            Some(s) => next == CreationStage::Inserting && a == CreationAction::Insert(s),
        },
        (CreationStage::Inserting, CreationEvent::Saved(e)) => next == CreationStage::Finished
            && (a matches CreationAction::Reply(Ok(v)) && v.shows(e)),
        _ => false,
    }
}

impl Creation {
    /// Starts the creation of an element with `input`: the fields are
    /// validated first; a valid request, with its text fields trimmed, reads
    /// its parent next, or, without one, takes a serial.
    pub fn start(input: CreateElement) -> (r: (Creation, CreationAction))
        ensures
            match validation_outcome(input.fields()) {
                Err(m) => r.0.stage == CreationStage::Finished && creation_replies_error(
                    r.1,
                    ErrorKind::BadRequest,
                    m,
                ),
                Ok(t) => r.0.tag_a@ == t && tidied_new(input, r.0.input) && match input.parent_serial {
                    Some(p) => r.0.stage == (CreationStage::CheckingParent { parent: p }) && r.1
                        == CreationAction::FetchParent(p),
                    None => r.0.stage == CreationStage::Allocating && r.1 is AllocateSerial,
                },
            },
    {
        match validate_element(&input) {
            Err(e) => (
                Creation { input, tag_a: String::new(), stage: CreationStage::Finished },
                CreationAction::Reply(Err(e)),
            ),
            Ok(tag_a) => {
                let mut input = input;
                tidy_create(&mut input);
                match input.parent_serial {
                    Some(p) => (
                        Creation { input, tag_a, stage: CreationStage::CheckingParent { parent: p } },
                        CreationAction::FetchParent(p),
                    ),
                    None => (
                        Creation { input, tag_a, stage: CreationStage::Allocating },
                        CreationAction::AllocateSerial,
                    ),
                }
            },
        }
    }

    /// Takes in what the last action gave and says what comes next.
    pub fn step(&mut self, event: CreationEvent) -> (a: CreationAction)
        requires
            creation_waits_for(old(self).stage, event),
        ensures
            final(self).input == old(self).input,
            final(self).tag_a == old(self).tag_a,
            creation_step(old(self).stage, event, final(self).stage, a),
    {
        match (self.stage, event) {
            (CreationStage::CheckingParent { .. }, CreationEvent::ParentFound(row)) => match check_parent(row) {
                Ok(()) => {
                    self.stage = CreationStage::Allocating;
                    CreationAction::AllocateSerial
                },
                Err(e) => {
                    self.stage = CreationStage::Finished;
                    CreationAction::Reply(Err(e))
                },
            },
            (CreationStage::Allocating, CreationEvent::Allocated(next)) => match allocated_serial(next) {
                Ok(serial) => {
                    self.stage = CreationStage::Inserting;
                    CreationAction::Insert(serial)
                },
                Err(e) => {
                    self.stage = CreationStage::Finished;
                    CreationAction::Reply(Err(e))
                },
            },
            (CreationStage::Inserting, CreationEvent::Saved(element)) => {
                self.stage = CreationStage::Finished;
                CreationAction::Reply(Ok(ElementView::from_element(element)))
            },
            _ => {
                proof {
                    assert(false);
                }
                CreationAction::AllocateSerial
            },
        }
    }
}

/// How far a creation at `stage` is from its answer, in steps at most.
pub open spec fn creation_rank(stage: CreationStage) -> nat {
    match stage {
        CreationStage::CheckingParent { .. } => 3,
        CreationStage::Allocating => 2,
        CreationStage::Inserting => 1,
        CreationStage::Finished => 0,
    }
}

/// Every step of a creation brings it closer to its answer, and the request
/// is answered exactly when the creation finishes.
pub proof fn law_creation_progresses(
    stage: CreationStage,
    event: CreationEvent,
    next: CreationStage,
    a: CreationAction,
)
    requires
        creation_step(stage, event, next, a),
    ensures
        creation_rank(next) < creation_rank(stage),
        a is Reply <==> next == CreationStage::Finished,
{
}

/// A serial is taken only once the parent, if any, is found to be a live
/// container, and an element is written only under the serial just taken.
pub proof fn law_created_under_live_parent(
    stage: CreationStage,
    event: CreationEvent,
    next: CreationStage,
    a: CreationAction,
)
    requires
        creation_step(stage, event, next, a),
    ensures
        a is AllocateSerial ==> stage is CheckingParent && (event matches CreationEvent::ParentFound(
            Some(r),
        ) && r.kind@ == "container"@ && !r.deleted),
        a matches CreationAction::Insert(s) ==> stage is Allocating && event == CreationEvent::Allocated(
            Some(s),
        ),
{
}

} // verus!

verus! {

// ---------------------------------------------------------------------------
// Parent links stay free of cycles
// ---------------------------------------------------------------------------

/// Following parent links `n` times from `a` in `links` (the parent of each
/// live element, by serial) arrives at `b`.
pub open spec fn reaches(links: Map<i64, Option<i64>>, a: i64, b: i64, n: nat) -> bool
    decreases n,
{
    if n == 0 {
        a == b
    } else if !links.contains_key(a) {
        false
    } else {
        match links[a] {
            Some(p) => reaches(links, p, b, (n - 1) as nat),
            None => false,
        }
    }
}

/// No element is its own ancestor.
pub open spec fn acyclic(links: Map<i64, Option<i64>>) -> bool {
    forall|a: i64, n: nat| n > 0 ==> !#[trigger] reaches(links, a, a, n)
}

/// `x` lies inside `s`: `s` is among the ancestors of `x`.
pub open spec fn inside(links: Map<i64, Option<i64>>, x: i64, s: i64) -> bool {
    exists|n: nat| n > 0 && #[trigger] reaches(links, x, s, n)
}

proof fn lemma_reaches_concat(links: Map<i64, Option<i64>>, x: i64, y: i64, z: i64, i: nat, j: nat)
    requires
        reaches(links, x, y, i),
        reaches(links, y, z, j),
    ensures
        reaches(links, x, z, i + j),
    decreases i,
{
    if i > 0 {
        let p = links[x]->0;
        lemma_reaches_concat(links, p, y, z, (i - 1) as nat, j);
        assert((i + j - 1) as nat == ((i - 1) as nat + j));
    }
}

/// A walk in `links` with the parent of `s` set to `q` either keeps clear of
/// `s`'s link, and so is a walk in `links`, or first reaches `s` in `k` steps
/// of `links` and goes on from `s`.
proof fn lemma_reaches_split(
    links: Map<i64, Option<i64>>,
    s: i64,
    q: Option<i64>,
    a: i64,
    b: i64,
    n: nat,
) -> (k: nat)
    requires
        reaches(links.insert(s, q), a, b, n),
    ensures
        k <= n,
        reaches(links, a, b, n) || (reaches(links, a, s, k) && reaches(
            links.insert(s, q),
            s,
            b,
            (n - k) as nat,
        )),
    decreases n,
{
    let moved = links.insert(s, q);
    if n == 0 || a == s {
        0
    } else {
        let p = moved[a]->0;
        assert(links.contains_key(a) && links[a] == Some(p));
        let k1 = lemma_reaches_split(links, s, q, p, b, (n - 1) as nat);
        assert((n - (k1 + 1)) as nat == ((n - 1) as nat - k1) as nat);
        k1 + 1
    }
}

/// Giving element `s` the parent `parent` keeps the parent links free of
/// cycles when the new parent is none, or a serial other than `s` that does
/// not lie inside `s`: exactly the parents that a change of an element lets
/// through.
pub proof fn law_move_keeps_links_acyclic(links: Map<i64, Option<i64>>, s: i64, parent: Option<i64>)
    requires
        acyclic(links),
        parent matches Some(p) ==> p != s && !inside(links, p, s),
    ensures
        acyclic(links.insert(s, parent)),
{
    let moved = links.insert(s, parent);
    assert forall|a: i64, n: nat| n > 0 implies !#[trigger] reaches(moved, a, a, n) by {
        if reaches(moved, a, a, n) {
            let k = lemma_reaches_split(links, s, parent, a, a, n);
            if reaches(links, a, a, n) {
                assert(false);
            } else if n - k == 0 {
                assert(reaches(links, a, a, k));
                assert(false);
            } else {
                let p = parent->0;
                assert(moved[s] == parent);
                assert(reaches(moved, p, a, (n - k - 1) as nat));
                let k2 = lemma_reaches_split(links, s, parent, p, a, (n - k - 1) as nat);
                if reaches(links, p, a, (n - k - 1) as nat) {
                    lemma_reaches_concat(links, p, a, s, (n - k - 1) as nat, k);
                    let total = ((n - k - 1) as nat + k) as nat;
                    if total == 0 {
                        assert(p == s);
                    } else {
                        assert(inside(links, p, s));
                    }
                    assert(false);
                } else {
                    if k2 == 0 {
                        assert(p == s);
                    } else {
                        assert(inside(links, p, s));
                    }
                    assert(false);
                }
            }
        }
    }
}

} // verus!

verus! {

/// Removing a live element with live children in the move-to-parent mode
/// gives the children the element's own parent: none (the top level) for an
/// element at the top level. The children never go to the element itself
/// unless it were its own parent.
pub proof fn law_children_go_to_the_parent(
    serial: i64,
    target: Option<i64>,
    e: Element,
    n: i64,
    s1: RemovalStage,
    a1: RemovalAction,
    s2: RemovalStage,
    a2: RemovalAction,
)
    requires
        e.deleted_at is None,
        n > 0,
        removal_step(serial, Some(DeleteMode::MoveToParent), target, RemovalStage::Fetching, RemovalEvent::Found(Some(e)), s1, a1),
        removal_step(serial, Some(DeleteMode::MoveToParent), target, s1, RemovalEvent::Counted(n), s2, a2),
    ensures
        a2 == RemovalAction::MoveChildren(e.parent_serial),
        e.parent_serial != Some(serial) ==> a2 != RemovalAction::MoveChildren(Some(serial)),
{
}

/// Removing a live element with live children in the move-to-container mode
/// checks the requested target, which is never the element itself: a live
/// container, then not inside the element; the children then move to
/// exactly that target, and a target inside the element is refused.
pub proof fn law_children_go_to_the_target(
    serial: i64,
    target: Option<i64>,
    e: Element,
    n: i64,
    s1: RemovalStage,
    a1: RemovalAction,
    s2: RemovalStage,
    a2: RemovalAction,
    s3: RemovalStage,
    a3: RemovalAction,
    s4: RemovalStage,
    a4: RemovalAction,
    is_container: bool,
    is_inside: bool,
)
    requires
        e.deleted_at is None,
        n > 0,
        removal_step(serial, Some(DeleteMode::MoveToContainer), target, RemovalStage::Fetching, RemovalEvent::Found(Some(e)), s1, a1),
        removal_step(serial, Some(DeleteMode::MoveToContainer), target, s1, RemovalEvent::Counted(n), s2, a2),
        removal_step(serial, Some(DeleteMode::MoveToContainer), target, s2, RemovalEvent::Answered(is_container), s3, a3),
        removal_step(serial, Some(DeleteMode::MoveToContainer), target, s3, RemovalEvent::Answered(is_inside), s4, a4),
    ensures
        target is Some && target != Some(serial),
        a2 == RemovalAction::CheckTargetIsContainer(target->0),
        is_container,
        a3 == RemovalAction::CheckTargetIsInside(target->0),
        a4 is MoveChildren <==> !is_inside,
        !is_inside ==> a4 == RemovalAction::MoveChildren(target),
        is_inside ==> replies_error(a4, ErrorKind::BadRequest, "目标容器不能位于待删除容器内部"@),
{
}

} // verus!
