//! What can be undone in each pane.

use vstd::prelude::*;

use crate::desk::slot_view;
use crate::notices::{message, Message, MessageKind, MessageView};
use crate::text::texts;
use crate::undo::{UndoTransaction, UndoTransactionView};

verus! {

/// What is to be done about the journal, and what a user is told, once a save is
/// done.
#[derive(Debug)]
pub struct UndoRecord {
    /// The transactions that are forgotten, in order.
    pub discard: Vec<String>,
    /// Whether what can be undone now is to be kept.
    pub commit: bool,
    pub warning: Option<Message>,
}

/// What is to be done about the journal, and what a user is told.
#[verifier::ext_equal]
pub struct UndoRecordView {
    pub discard: Seq<Seq<char>>,
    pub commit: bool,
    pub warning: Option<MessageView>,
}

impl UndoRecord {
    pub open spec fn view(&self) -> UndoRecordView {
        UndoRecordView {
            discard: texts(self.discard@),
            commit: self.commit,
            warning: match self.warning {
                Some(message) => Some(message@),
                None => None,
            },
        }
    }
}

/// The name of what can be undone.
pub open spec fn slot_name(slot: Option<UndoTransactionView>) -> Seq<Seq<char>> {
    match slot {
        Some(transaction) => seq![transaction.id],
        None => Seq::empty(),
    }
}

/// What the end of a save means for what can be undone. Where something was done,
/// what could be undone before no longer can; what was done can be undone where it
/// was recorded.
pub open spec fn recorded(
    slot: Option<UndoTransactionView>,
    any_success: bool,
    transaction: Option<UndoTransactionView>,
) -> (Option<UndoTransactionView>, UndoRecordView) {
    if any_success {
        match transaction {
            Some(transaction) => if transaction.steps.len() == 0 {
                (
                    None,
                    UndoRecordView {
                        discard: slot_name(slot).push(transaction.id),
                        commit: false,
                        warning: Some(
                            message(
                                MessageKind::Warn,
                                "Undo record for this apply is empty. It cannot be undone."@,
                            ),
                        ),
                    },
                )
            } else {
                (
                    Some(transaction),
                    UndoRecordView { discard: slot_name(slot), commit: true, warning: None },
                )
            },
            None => (
                None,
                UndoRecordView {
                    discard: slot_name(slot),
                    commit: false,
                    warning: Some(
                        message(
                            MessageKind::Warn,
                            "This apply has no undo record and cannot be undone"@,
                        ),
                    ),
                },
            ),
        }
    } else {
        (slot, UndoRecordView { discard: slot_name(transaction), commit: false, warning: None })
    }
}

/// Forgets what can be undone, and gives its name.
pub fn discard_undo_slot(slot: &mut Option<UndoTransaction>) -> (r: Option<String>)
    ensures
        *final(slot) is None,
        match (slot_view(*old(slot)), r) {
            (Some(transaction), Some(id)) => id@ == transaction.id,
            (None, None) => true,
            _ => false,
        },
{
    let mut taken: Option<UndoTransaction> = None;
    std::mem::swap(&mut taken, slot);
    match taken {
        Some(transaction) => Some(transaction.id),
        None => None,
    }
}

/// The names of what can be undone, in order.
pub open spec fn slot_names(slots: Seq<Option<UndoTransaction>>) -> Seq<Seq<char>>
    decreases slots.len(),
{
    if slots.len() == 0 {
        Seq::empty()
    } else {
        slot_names(slots.drop_last()) + slot_name(slot_view(slots.last()))
    }
}

/// Forgets what can be undone in each of some panes, and gives the names.
pub fn discard_all_undo_slots(slots: &mut Vec<Option<UndoTransaction>>) -> (r: Vec<String>)
    ensures
        texts(r@) == slot_names(old(slots)@),
        final(slots)@.len() == old(slots)@.len(),
        forall|i: int| 0 <= i < final(slots)@.len() ==> (#[trigger] final(slots)@[i]) is None,
{
    let ghost all = slots@;
    let mut taken: Vec<Option<UndoTransaction>> = Vec::new();
    std::mem::swap(&mut taken, slots);
    let mut names: Vec<String> = Vec::new();
    assert(all.take(0) =~= Seq::empty());
    assert(texts(names@) =~= slot_names(all.take(0)));
    for slot in it: taken
        invariant
            it.seq() == all,
            texts(names@) == slot_names(all.take(it.index() as int)),
            slots@.len() == it.index(),
            forall|i: int| 0 <= i < slots@.len() ==> (#[trigger] slots@[i]) is None,
    {
        let ghost n = it.index() as int;
        assert(all.take(n + 1).drop_last() =~= all.take(n));
        assert(all.take(n + 1).last() == slot);
        let ghost before = names@;
        if let Some(transaction) = slot {
            names.push(transaction.id);
        }
        assert(texts(names@) =~= texts(before) + slot_name(slot_view(slot)));
        slots.push(None);
    }
    assert(all.take(all.len() as int) =~= all);
    names
}

/// What a user is told where a save cannot be recorded.
pub fn begin_failure(error: &str) -> (r: Message)
    ensures
        r@ == message(
            MessageKind::Warn,
            "Failed to start undo journal. This apply cannot be undone: "@ + error@,
        ),
{
    let text = "Failed to start undo journal. This apply cannot be undone: ".to_owned().concat(
        error,
    );
    Message::new(MessageKind::Warn, text.as_str())
}

/// Takes what a worker recorded while it saved, and whether it has done anything.
pub fn record_apply(
    slot: &mut Option<UndoTransaction>,
    any_success: bool,
    transaction: Option<UndoTransaction>,
) -> (r: UndoRecord)
    ensures
        (slot_view(*final(slot)), r@) == recorded(
            slot_view(*old(slot)),
            any_success,
            slot_view(transaction),
        ),
{
    let ghost before = slot_view(*slot);
    let mut discard: Vec<String> = Vec::new();
    if !any_success {
        if let Some(transaction) = transaction {
            discard.push(transaction.id);
        }
        assert(texts(discard@) =~= slot_name(slot_view(transaction)));
        return UndoRecord { discard, commit: false, warning: None };
    }
    if let Some(id) = discard_undo_slot(slot) {
        discard.push(id);
    }
    assert(texts(discard@) =~= slot_name(before));
    match transaction {
        Some(transaction) => {
            if transaction.steps.len() == 0 {
                discard.push(transaction.id);
                assert(texts(discard@) =~= slot_name(before).push(transaction@.id));
                UndoRecord {
                    discard,
                    commit: false,
                    warning: Some(
                        Message::new(
                            MessageKind::Warn,
                            "Undo record for this apply is empty. It cannot be undone.",
                        ),
                    ),
                }
            } else {
                *slot = Some(transaction);
                UndoRecord { discard, commit: true, warning: None }
            }
        },
        None => UndoRecord {
            discard,
            commit: false,
            warning: Some(
                Message::new(
                    MessageKind::Warn,
                    "This apply has no undo record and cannot be undone",
                ),
            ),
        },
    }
}

/// Only the last thing done can be undone: a save that has done something replaces
/// what could be undone, and one that has done nothing leaves it.
pub proof fn only_the_last_save_can_be_undone(
    slot: Option<UndoTransactionView>,
    any_success: bool,
    transaction: Option<UndoTransactionView>,
)
    ensures
        !any_success ==> recorded(slot, any_success, transaction).0 == slot,
        any_success ==> match recorded(slot, any_success, transaction).0 {
            Some(kept) => transaction == Some(kept) && kept.steps.len() > 0,
            None => transaction matches Some(kept) ==> kept.steps.len() == 0,
        },
        any_success && recorded(slot, any_success, transaction).0 is None ==> recorded(
            slot,
            any_success,
            transaction,
        ).1.warning is Some,
        any_success && slot is Some ==> recorded(
            slot,
            any_success,
            transaction,
        ).1.discard.contains(slot->Some_0.id),
{
    if any_success && slot is Some {
        let discard = recorded(slot, any_success, transaction).1.discard;
        assert(discard[0] == slot->Some_0.id);
    }
}

} // verus!
