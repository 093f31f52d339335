//! The field rules of the wire format.
//!
//! Every value of the data model travels as a record: a name and a fixed list
//! of fields. A decoder meets a record either as a run of values in the order
//! of the fields, or as a run of keys, each followed by its value, in any
//! order. This module decides what a decoder may accept: it knows the fields
//! of each record, tells which field a key names, and rejects a key that
//! names no field, a field given twice, a field left out, and a run of values
//! of the wrong length. Reading the values themselves is the decoder's work.

use vstd::prelude::*;

verus! {

/// The kinds of record in the data model.
#[derive(Clone, Copy, Debug, PartialEq, Eq, Structural)]
pub enum Record {
    /// A unit of dialogue.
    Node,
    /// The condition `True`.
    True,
    /// The condition `Not`.
    Not,
    /// The condition `And`.
    And,
    /// The condition `Or`.
    Or,
    /// The condition `Function`.
    Function,
    /// An edge.
    Edge,
    /// A dialogue graph.
    DialogueGraph,
}

impl Record {
    /// The fields of the record, in their canonical order.
    pub open spec fn field_names(self) -> Seq<Seq<char>> {
        match self {
            Record::Node => seq!["content"@],
            Record::True => seq![],
            Record::Not => seq!["condition"@],
            Record::And => seq!["left"@, "right"@],
            Record::Or => seq!["left"@, "right"@],
            Record::Function => seq!["data"@, "condition"@],
            Record::Edge => seq!["condition"@],
            Record::DialogueGraph => seq!["data"@],
        }
    }

    /// The name under which the record travels.
    pub fn name(self) -> (name: &'static str)
        ensures
            name@ == match self {
                Record::Node => "Node"@,
                Record::True => "True"@,
                Record::Not => "Not"@,
                Record::And => "And"@,
                Record::Or => "Or"@,
                Record::Function => "Function"@,
                Record::Edge => "Edge"@,
                Record::DialogueGraph => "DialogueGraph"@,
            },
    {
        match self {
            Record::Node => "Node",
            Record::True => "True",
            Record::Not => "Not",
            Record::And => "And",
            Record::Or => "Or",
            Record::Function => "Function",
            Record::Edge => "Edge",
            Record::DialogueGraph => "DialogueGraph",
        }
    }

    /// The fields of the record, in their canonical order.
    pub fn fields(self) -> (names: &'static [&'static str])
        ensures
            texts(names@) == self.field_names(),
    {
        match self {
            Record::Node => &["content"],
            Record::True => &[],
            Record::Not => &["condition"],
            Record::And => &["left", "right"],
            Record::Or => &["left", "right"],
            Record::Function => &["data", "condition"],
            Record::Edge => &["condition"],
            Record::DialogueGraph => &["data"],
        }
    }

    /// Which field of the record `key` names.
    ///
    /// Returns the position of the field among the fields of the record, or
    /// `UnknownField` with the key and the fields that were expected where
    /// the key names none of them.
    pub fn field(self, key: &str) -> (position: Result<usize, DecodeError>)
        ensures
            match position {
                Ok(index) => names(self.field_names(), key@, index as int),
                Err(DecodeError::UnknownField { key: found, expected }) => {
                    &&& !self.field_names().contains(key@)
                    &&& found@ == key@
                    &&& texts(expected@) == self.field_names()
                },
                Err(_) => false,
            },
    {
        let fields = self.fields();
        let mut index: usize = 0;
        while index < fields.len()
            invariant
                index <= fields.len(),
                texts(fields@) == self.field_names(),
                forall|i: int| 0 <= i < index ==> self.field_names()[i] != key@,
            decreases fields.len() - index,
        {
            assert(texts(fields@)[index as int] == fields[index as int]@);
            if same_text(fields[index], key) {
                return Ok(index);
            }
            index = index + 1;
        }
        Err(DecodeError::UnknownField { key: key.to_owned(), expected: fields })
    }

    /// Whether a run of `length` values can be a record of this kind: it
    /// must hold one value for each field.
    pub fn positional(self, length: usize) -> (accepted: Result<(), DecodeError>)
        ensures
            match accepted {
                Ok(()) => length == self.field_names().len(),
                Err(DecodeError::InvalidLength { length: found, record }) => {
                    &&& length != self.field_names().len()
                    &&& found == length
                    &&& record == self
                },
                Err(_) => false,
            },
    {
        if length == self.fields().len() {
            Ok(())
        } else {
            Err(DecodeError::InvalidLength { length, record: self })
        }
    }

    /// Whether a run of `keys` can be a record of this kind: each field must
    /// be named once, in any order, and nothing else.
    ///
    /// Returns for each key the position of the field that it names. The
    /// first key that offends decides the error: `UnknownField` where it
    /// names no field, `DuplicateField` where it repeats an earlier key.
    /// Where no key offends and a field is left unnamed, the first such
    /// field, in canonical order, is reported as `MissingField`.
    pub fn named(self, keys: &[&str]) -> (positions: Result<Vec<usize>, DecodeError>)
        ensures
            match positions {
                Ok(slots) => {
                    &&& forall|at: int|
                        0 <= at < keys.len() ==> !offends(self.field_names(), texts(keys@), at)
                    &&& forall|index: int|
                        0 <= index < self.field_names().len() ==> texts(keys@).contains(
                            #[trigger] self.field_names()[index],
                        )
                    &&& slots.len() == keys.len()
                    &&& forall|at: int|
                        0 <= at < keys.len() ==> names(
                            self.field_names(),
                            texts(keys@)[at],
                            #[trigger] slots[at] as int,
                        )
                },
                Err(DecodeError::UnknownField { key: found, expected }) => exists|at: int|
                    {
                        &&& #[trigger] first_offence(self.field_names(), texts(keys@), at)
                        &&& !self.field_names().contains(texts(keys@)[at])
                        &&& found@ == texts(keys@)[at]
                        &&& texts(expected@) == self.field_names()
                    },
                Err(DecodeError::DuplicateField { field }) => exists|at: int|
                    {
                        &&& #[trigger] first_offence(self.field_names(), texts(keys@), at)
                        &&& self.field_names().contains(texts(keys@)[at])
                        &&& field@ == texts(keys@)[at]
                    },
                Err(DecodeError::MissingField { field }) => {
                    &&& forall|at: int|
                        0 <= at < keys.len() ==> !offends(self.field_names(), texts(keys@), at)
                    &&& exists|index: int|
                        {
                            &&& #[trigger] first_unnamed(self.field_names(), texts(keys@), index)
                            &&& field@ == self.field_names()[index]
                        }
                },
                Err(_) => false,
            },
    {
        let ghost fields = self.field_names();
        let ghost met = texts(keys@);
        proof {
            lemma_fields_differ(self);
        }
        let mut tracker = FieldTracker::new(self);
        let mut at: usize = 0;
        while at < keys.len()
            invariant
                at <= keys.len(),
                fields == self.field_names(),
                met == texts(keys@),
                tracker.record() == self,
                tracker.filled().len() == at,
                forall|i: int, j: int| 0 <= i < j < fields.len() ==> fields[i] != fields[j],
                forall|before: int|
                    0 <= before < at ==> names(fields, met[before], #[trigger] tracker.filled()[before] as int),
                forall|before: int| 0 <= before < at ==> !offends(fields, met, before),
            decreases keys.len() - at,
        {
            let ghost filled = tracker.filled();
            assert(met[at as int] == keys[at as int]@);
            match tracker.accept(keys[at]) {
                Ok(index) => {
                    assert(!offends(fields, met, at as int)) by {
                        assert(fields[index as int] == met[at as int]);
                        if exists|before: int| 0 <= before < at && met[before] == met[at as int] {
                            let before = choose|before: int|
                                0 <= before < at && met[before] == met[at as int];
                            assert(filled[before] == index);
                        }
                    }
                },
                Err(error) => {
                    proof {
                        match error {
                            DecodeError::DuplicateField { field } => {
                                let index = choose|index: int|
                                    names(fields, met[at as int], index) && filled.contains(
                                        index as usize,
                                    );
                                let before = choose|before: int|
                                    0 <= before < filled.len() && filled[before] == index as usize;
                                assert(met[before] == met[at as int]);
                                assert(fields[index] == met[at as int]);
                            },
                            _ => {},
                        }
                        assert(first_offence(fields, met, at as int));
                    }
                    return Err(error);
                },
            }
            at = at + 1;
        }
        let ghost filled = tracker.filled();
        match tracker.finish() {
            Ok(()) => {
                assert forall|index: int| 0 <= index < fields.len() implies met.contains(
                    #[trigger] fields[index],
                ) by {
                    assert(!tracker.awaits(index));
                    let before = choose|before: int|
                        0 <= before < filled.len() && filled[before] == index as usize;
                    assert(met[before] == fields[index]);
                }
                Ok(tracker.filled)
            },
            Err(error) => {
                proof {
                    match error {
                        DecodeError::MissingField { field } => {
                            let index = choose|index: int|
                                {
                                    &&& #[trigger] tracker.awaits(index)
                                    &&& forall|earlier: int|
                                        0 <= earlier < index ==> !tracker.awaits(earlier)
                                    &&& field@ == fields[index]
                                };
                            if met.contains(fields[index]) {
                                let before = choose|before: int|
                                    0 <= before < met.len() && met[before] == fields[index];
                                assert(names(fields, met[before], filled[before] as int));
                                assert(filled[before] == index);
                            }
                            assert forall|earlier: int| 0 <= earlier < index implies met.contains(
                                #[trigger] fields[earlier],
                            ) by {
                                assert(!tracker.awaits(earlier));
                                let before = choose|before: int|
                                    0 <= before < filled.len() && filled[before] == earlier as usize;
                                assert(met[before] == fields[earlier]);
                            }
                            assert(first_unnamed(fields, met, index));
                        },
                        _ => {},
                    }
                }
                Err(error)
            },
        }
    }
}

/// The texts of a list of string slices.
pub open spec fn texts<'a>(names: Seq<&'a str>) -> Seq<Seq<char>> {
    names.map_values(|name: &'a str| name@)
}

/// Whether `key` is the field at `index` of `fields`.
pub open spec fn names(fields: Seq<Seq<char>>, key: Seq<char>, index: int) -> bool {
    0 <= index < fields.len() && fields[index] == key
}

/// Whether the key at position `at` of `keys` offends: it names no field, or
/// it repeats an earlier key.
pub open spec fn offends(fields: Seq<Seq<char>>, keys: Seq<Seq<char>>, at: int) -> bool {
    ||| !fields.contains(keys[at])
    ||| exists|before: int| 0 <= before < at && keys[before] == keys[at]
}

/// Whether the key at position `at` is the first of `keys` that offends.
pub open spec fn first_offence(fields: Seq<Seq<char>>, keys: Seq<Seq<char>>, at: int) -> bool {
    &&& 0 <= at < keys.len()
    &&& offends(fields, keys, at)
    &&& forall|before: int| 0 <= before < at ==> !offends(fields, keys, before)
}

/// Whether the field at `index` is the first, in canonical order, that no
/// key names.
pub open spec fn first_unnamed(fields: Seq<Seq<char>>, keys: Seq<Seq<char>>, index: int) -> bool {
    &&& 0 <= index < fields.len()
    &&& !keys.contains(fields[index])
    &&& forall|earlier: int| 0 <= earlier < index ==> keys.contains(fields[earlier])
}

/// No record has two fields of the same name.
pub proof fn lemma_fields_differ(record: Record)
    ensures
        forall|i: int, j: int|
            0 <= i < j < record.field_names().len() ==> record.field_names()[i]
                != record.field_names()[j],
{
    reveal_strlit("left");
    reveal_strlit("right");
    reveal_strlit("data");
    reveal_strlit("condition");
    assert("left"@.len() != "right"@.len());
    assert("data"@.len() != "condition"@.len());
}

/// What an encoder writes, a decoder accepts: where the keys of a record are
/// its fields in canonical order, no key offends and no field is left
/// unnamed, and each key names the field at its own position.
pub proof fn lemma_canonical_keys_accepted(record: Record)
    ensures
        forall|at: int|
            0 <= at < record.field_names().len() ==> !offends(
                record.field_names(),
                record.field_names(),
                at,
            ),
        forall|index: int|
            0 <= index < record.field_names().len() ==> record.field_names().contains(
                #[trigger] record.field_names()[index],
            ),
        forall|at: int|
            0 <= at < record.field_names().len() ==> names(
                record.field_names(),
                #[trigger] record.field_names()[at],
                at,
            ),
{
    lemma_fields_differ(record);
}

/// Why a record was refused.
#[derive(Debug, PartialEq, Eq)]
pub enum DecodeError {
    /// A key named no field of the record.
    UnknownField {
        /// The key as it was met.
        key: String,
        /// The fields of the record.
        expected: &'static [&'static str],
    },
    /// A field was given a second time.
    DuplicateField {
        /// The field.
        field: &'static str,
    },
    /// The record ended without a field.
    MissingField {
        /// The field.
        field: &'static str,
    },
    /// A run of values did not hold one value for each field.
    InvalidLength {
        /// The number of values that were met.
        length: usize,
        /// The record that was expected.
        record: Record,
    },
}

/// Follows the keys of one record as a decoder meets them.
pub struct FieldTracker {
    /// The record that is being decoded.
    record: Record,
    /// The positions of the fields met so far, in the order of their keys.
    filled: Vec<usize>,
}

impl FieldTracker {
    /// The record that is being decoded.
    pub closed spec fn record(&self) -> Record {
        self.record
    }

    /// The positions of the fields met so far, in the order of their keys.
    pub closed spec fn filled(&self) -> Seq<usize> {
        self.filled@
    }

    /// Whether the field at `index` is still to be met.
    pub open spec fn awaits(&self, index: int) -> bool {
        0 <= index < self.record().field_names().len() && !self.filled().contains(index as usize)
    }

    /// Starts on a record of which no field has been met.
    pub fn new(record: Record) -> (tracker: Self)
        ensures
            tracker.record() == record,
            tracker.filled() == Seq::<usize>::empty(),
    {
        FieldTracker { record, filled: Vec::new() }
    }

    /// Takes the next key of the record.
    ///
    /// Returns the position of the field that the key names, and counts the
    /// field as met. Refuses the key, and changes nothing, where it names no
    /// field of the record (`UnknownField`) or names a field that was met
    /// before (`DuplicateField`).
    pub fn accept(&mut self, key: &str) -> (position: Result<usize, DecodeError>)
        ensures
            final(self).record() == old(self).record(),
            match position {
                Ok(index) => {
                    &&& names(old(self).record().field_names(), key@, index as int)
                    &&& !old(self).filled().contains(index)
                    &&& final(self).filled() == old(self).filled().push(index)
                },
                Err(DecodeError::UnknownField { key: found, expected }) => {
                    &&& !old(self).record().field_names().contains(key@)
                    &&& found@ == key@
                    &&& texts(expected@) == old(self).record().field_names()
                    &&& final(self).filled() == old(self).filled()
                },
                Err(DecodeError::DuplicateField { field }) => {
                    &&& exists|index: int|
                        names(old(self).record().field_names(), key@, index) && old(
                            self,
                        ).filled().contains(index as usize)
                    &&& field@ == key@
                    &&& final(self).filled() == old(self).filled()
                },
                Err(_) => false,
            },
    {
        match self.record.field(key) {
            Ok(index) => {
                if holds(&self.filled, index) {
                    let fields = self.record.fields();
                    assert(texts(fields@)[index as int] == fields[index as int]@);
                    Err(DecodeError::DuplicateField { field: fields[index] })
                } else {
                    self.filled.push(index);
                    Ok(index)
                }
            },
            Err(error) => Err(error),
        }
    }

    /// Ends the record.
    ///
    /// Accepts it where every field has been met, and otherwise refuses it
    /// with `MissingField` and the first field, in canonical order, that was
    /// not met.
    pub fn finish(&self) -> (complete: Result<(), DecodeError>)
        ensures
            match complete {
                Ok(()) => forall|index: int| !self.awaits(index),
                Err(DecodeError::MissingField { field }) => exists|index: int|
                    {
                        &&& #[trigger] self.awaits(index)
                        &&& forall|earlier: int| 0 <= earlier < index ==> !self.awaits(earlier)
                        &&& field@ == self.record().field_names()[index]
                    },
                Err(_) => false,
            },
    {
        let fields = self.record.fields();
        let mut index: usize = 0;
        while index < fields.len()
            invariant
                index <= fields.len(),
                texts(fields@) == self.record().field_names(),
                forall|earlier: int| 0 <= earlier < index ==> !self.awaits(earlier),
            decreases fields.len() - index,
        {
            if !holds(&self.filled, index) {
                assert(texts(fields@)[index as int] == fields[index as int]@);
                assert(self.awaits(index as int));
                return Err(DecodeError::MissingField { field: fields[index] });
            }
            index = index + 1;
        }
        Ok(())
    }
}

/// Whether `slot` is among `slots`.
fn holds(slots: &Vec<usize>, slot: usize) -> (found: bool)
    ensures
        found == slots@.contains(slot),
{
    let mut at: usize = 0;
    while at < slots.len()
        invariant
            at <= slots.len(),
            forall|i: int| 0 <= i < at ==> slots[i] != slot,
        decreases slots.len() - at,
    {
        if slots[at] == slot {
            return true;
        }
        at = at + 1;
    }
    false
}

/// `str`'s `==`: whether two string slices hold the same text.
#[verifier::external_body]
fn same_text(a: &str, b: &str) -> (same: bool)
    ensures
        same == (a@ == b@),
{
    a == b
}

} // verus!
