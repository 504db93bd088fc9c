//! The fixed forms of address: which salutation and which closing a recipient
//! of a given standing is owed.
use vstd::prelude::*;

use crate::schemas::RecipientClass;

verus! {

/// The salutation for a recipient.
pub open spec fn salutation(class: RecipientClass) -> Seq<char> {
    match class {
        RecipientClass::Executive => "กราบเรียน"@,
        RecipientClass::Monk => "กราบนมัสการ"@,
        RecipientClass::Royal => "กราบบังคมทูล"@,
        _ => "เรียน"@,
    }
}

/// The closing for a recipient.
pub open spec fn closing(class: RecipientClass) -> Seq<char> {
    match class {
        RecipientClass::Monk => "ขอนมัสการด้วยความเคารพ"@,
        RecipientClass::SeniorOfficial | RecipientClass::Executive | RecipientClass::Royal =>
            "ขอแสดงความนับถืออย่างยิ่ง"@,
        _ => "ขอแสดงความนับถือ"@,
    }
}

/// The salutation for a recipient.
pub fn lookup_salutation(recipient_class: &RecipientClass) -> (r: &'static str)
    ensures
        r@ == salutation(*recipient_class),
{
    match recipient_class {
        RecipientClass::GeneralPublic => "เรียน",
        RecipientClass::JuniorOfficial => "เรียน",
        RecipientClass::SeniorOfficial => "เรียน",
        RecipientClass::Executive => "กราบเรียน",
        RecipientClass::Monk => "กราบนมัสการ",
        RecipientClass::Royal => "กราบบังคมทูล",
    }
}

/// The closing for a recipient.
pub fn lookup_closing(recipient_class: &RecipientClass) -> (r: &'static str)
    ensures
        r@ == closing(*recipient_class),
{
    match recipient_class {
        RecipientClass::GeneralPublic => "ขอแสดงความนับถือ",
        RecipientClass::JuniorOfficial => "ขอแสดงความนับถือ",
        RecipientClass::SeniorOfficial => "ขอแสดงความนับถืออย่างยิ่ง",
        RecipientClass::Executive => "ขอแสดงความนับถืออย่างยิ่ง",
        RecipientClass::Monk => "ขอนมัสการด้วยความเคารพ",
        RecipientClass::Royal => "ขอแสดงความนับถืออย่างยิ่ง",
    }
}

/// A monk, a member of the royal family and an executive are each addressed in a
/// way of their own, and everybody else in the common way.
pub proof fn law_salutations_go_by_standing(class: RecipientClass)
    ensures
        salutation(RecipientClass::Monk) == "กราบนมัสการ"@,
        salutation(RecipientClass::Royal) == "กราบบังคมทูล"@,
        salutation(RecipientClass::Executive) == "กราบเรียน"@,
        !(class is Monk || class is Royal || class is Executive) ==> salutation(class) == "เรียน"@,
{
}

/// A letter to a monk closes in a way of its own; one to those of high standing
/// closes with more respect than one to others.
pub proof fn law_closings_go_by_standing(class: RecipientClass)
    ensures
        closing(RecipientClass::Monk) == "ขอนมัสการด้วยความเคารพ"@,
        class is SeniorOfficial || class is Executive || class is Royal ==> closing(class)
            == "ขอแสดงความนับถืออย่างยิ่ง"@,
        class is GeneralPublic || class is JuniorOfficial ==> closing(class) == "ขอแสดงความนับถือ"@,
{
}

} // verus!
