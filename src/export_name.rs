use vstd::prelude::*;
use crate::error::FindError;

verus! {

/// The canonical file name of a field export:
/// `<field> (f=<frequency>) [<label><index>].h5`.
pub open spec fn export_name_text(
    field: Seq<char>,
    frequency: Seq<char>,
    label: Seq<char>,
    index: Seq<char>,
) -> Seq<char> {
    field + " (f="@ + frequency + ") ["@ + label + index + "].h5"@
}

/// Builds the export file name from exactly four parameters: field name,
/// frequency, label and index. Any other number of parameters is reported
/// as `InvalidArgumentCount`.
pub fn field_data3_export_name(args: &[&str]) -> (r: Result<String, FindError>)
    ensures
        r is Ok <==> args@.len() == 4,
        r is Ok ==> r->Ok_0@ == export_name_text(args@[0]@, args@[1]@, args@[2]@, args@[3]@),
        r is Err ==> r->Err_0 == (FindError::InvalidArgumentCount { count: args@.len() as usize }),
{
    if args.len() != 4 {
        return Err(FindError::InvalidArgumentCount { count: args.len() });
    }
    let mut name = String::new();
    name.append(args[0]);
    name.append(" (f=");
    name.append(args[1]);
    name.append(") [");
    name.append(args[2]);
    name.append(args[3]);
    name.append("].h5");
    Ok(name)
}

} // verus!
