use vstd::prelude::*;

use crate::text::{
    append_all, chars_of, contains_pat, contains_pattern, copy_chars, join_with, replace_first,
    spec_join, spec_replace_first, spec_split, split_on,
};
use crate::{Error, ErrorV};

verus! {

// The schema evolution engine. A change descriptor names a table, a field
// and one of six operations; direct column operations yield one or two
// statements, constraint operations yield a rebuild-and-swap plan built by
// rewriting the table's own structural definition text.

/// The lines of `ls` that do not mention `p`.
pub open spec fn remove_matching_lines(ls: Seq<Seq<char>>, p: Seq<char>) -> Seq<Seq<char>> {
    ls.filter(|l: Seq<char>| !contains_pat(l, p))
}

/// The text of one constraint clause, as it is inserted into a table
/// definition.
pub open spec fn constraint_line(name: Seq<char>, data: Seq<char>) -> Seq<char> {
    "CONSTRAINT "@ + name + " "@ + data
}

/// The lines of `lines` that do not mention `p`.
fn keep_lines_without(lines: &Vec<Vec<char>>, p: &Vec<char>) -> (r: Vec<Vec<char>>)
    ensures
        r.deep_view() == remove_matching_lines(lines.deep_view(), p@),
{
    let mut r: Vec<Vec<char>> = Vec::new();
    let mut i: usize = 0;
    while i < lines.len()
        invariant
            i <= lines@.len(),
            r.deep_view() == remove_matching_lines(lines.deep_view().subrange(0, i as int), p@),
        decreases lines@.len() - i,
    {
        let ghost dv_pre = r.deep_view();
        let keep = !contains_pattern(&lines[i], p);
        if keep {
            let line = copy_chars(&lines[i]);
            r.push(line);
        }
        proof {
            reveal(Seq::filter);
            let prefix = lines.deep_view().subrange(0, i as int);
            let prefix1 = lines.deep_view().subrange(0, i + 1 as int);
            assert(prefix1.drop_last() =~= prefix);
            assert(prefix1.last() == lines.deep_view()[i as int]);
            assert(lines.deep_view()[i as int] =~= lines@[i as int]@);
            if keep {
                assert(r.deep_view() =~= dv_pre.push(lines.deep_view()[i as int]));
            }
            assert(r.deep_view() =~= remove_matching_lines(prefix1, p@));
        }
        i += 1;
    }
    proof {
        assert(lines.deep_view().subrange(0, lines@.len() as int) =~= lines.deep_view());
    }
    r
}

/// A table's structural definition, held as text, with the operations the
/// rebuild procedure needs: renaming the table and adding or removing a
/// constraint clause.
pub struct SchemaModifier {
    pub table_name: Vec<char>,
    pub schema: Vec<char>,
}

impl SchemaModifier {
    /// Wrap a table name and its definition text.
    pub fn new(table_name: Vec<char>, schema: Vec<char>) -> (r: SchemaModifier)
        ensures
            r.table_name@ == table_name@,
            r.schema@ == schema@,
    {
        SchemaModifier { table_name, schema }
    }

    /// The definition under a new table name: the first occurrence of the
    /// old name in the text is replaced.
    pub fn change_table_name(&self, new_table_name: &Vec<char>) -> (r: SchemaModifier)
        ensures
            r.table_name@ == new_table_name@,
            r.schema@ == spec_replace_first(self.schema@, self.table_name@, new_table_name@),
    {
        SchemaModifier {
            table_name: copy_chars(new_table_name),
            schema: replace_first(&self.schema, &self.table_name, new_table_name),
        }
    }

    /// The definition with a constraint clause inserted just before its
    /// closing lines.
    pub fn add_constraint(&self, constraint_name: &Vec<char>, new_constraint: &Vec<char>) -> (r:
        SchemaModifier)
        requires
            spec_split(self.schema@, '\n').len() >= 2,
        ensures
            r.table_name@ == self.table_name@,
            r.schema@ == spec_join(
                spec_split(self.schema@, '\n').insert(
                    spec_split(self.schema@, '\n').len() - 2,
                    constraint_line(constraint_name@, new_constraint@),
                ),
                '\n',
            ),
    {
        let mut lines = split_on(&self.schema, '\n');
        let ghost dv0 = lines.deep_view();
        let mut cl = chars_of("CONSTRAINT ");
        append_all(&mut cl, constraint_name);
        let sp = chars_of(" ");
        append_all(&mut cl, &sp);
        append_all(&mut cl, new_constraint);
        proof {
            assert(cl@ =~= constraint_line(constraint_name@, new_constraint@));
        }
        let idx = lines.len() - 2;
        lines.insert(idx, cl);
        proof {
            assert forall|k: int| 0 <= k < lines@.len() implies #[trigger] lines.deep_view()[k]
                == dv0.insert(idx as int, cl@)[k] by {
                if k < idx {
                } else if k == idx {
                } else {
                }
            }
            assert(lines.deep_view() =~= dv0.insert(idx as int, cl@));
        }
        let joined = join_with(&lines, '\n');
        SchemaModifier { table_name: copy_chars(&self.table_name), schema: joined }
    }

    /// The definition with every line that mentions the named constraint
    /// removed.
    pub fn remove_constraint(&self, constraint_name: &Vec<char>) -> (r: SchemaModifier)
        ensures
            r.table_name@ == self.table_name@,
            r.schema@ == spec_join(
                remove_matching_lines(spec_split(self.schema@, '\n'), constraint_name@),
                '\n',
            ),
    {
        let lines = split_on(&self.schema, '\n');
        let kept = keep_lines_without(&lines, constraint_name);
        let joined = join_with(&kept, '\n');
        SchemaModifier { table_name: copy_chars(&self.table_name), schema: joined }
    }

    /// The definition text as it stands.
    pub fn commit(&self) -> (r: Vec<char>)
        ensures
            r@ == self.schema@,
    {
        copy_chars(&self.schema)
    }
}

/// One declarative change of one field, as the configuration names it.
/// `update_type` selects the operation: 1 adds a column, 2 renames one, 3
/// drops one, 4 adds a constraint, 5 replaces one, 6 drops one; any other
/// value does nothing.
pub struct SchemaFieldUpdate {
    pub new_name: Vec<char>,
    pub new_type: Vec<char>,
    pub update_type: i32,
    pub default: Option<Vec<char>>,
    pub constraint_data: Option<Vec<char>>,
}

pub ghost struct SchemaFieldUpdateV {
    pub new_name: Seq<char>,
    pub new_type: Seq<char>,
    pub update_type: i32,
    pub default: Option<Seq<char>>,
    pub constraint_data: Option<Seq<char>>,
}

pub open spec fn view_text(o: Option<Vec<char>>) -> Option<Seq<char>> {
    match o {
        Some(v) => Some(v@),
        None => None,
    }
}

impl View for SchemaFieldUpdate {
    type V = SchemaFieldUpdateV;

    open spec fn view(&self) -> SchemaFieldUpdateV {
        SchemaFieldUpdateV {
            new_name: self.new_name@,
            new_type: self.new_type@,
            update_type: self.update_type,
            default: view_text(self.default),
            constraint_data: view_text(self.constraint_data),
        }
    }
}


/// The field changes pending for one table.
pub struct TableUpdates {
    pub table_name: Vec<char>,
    pub fields: Vec<(Vec<char>, SchemaFieldUpdate)>,
}

/// The declarative change set loaded at startup: the pending changes of
/// the catalog database and of the log database, each by table.
pub struct SchemaUpdate {
    pub igdb: Option<Vec<TableUpdates>>,
    pub logs: Option<Vec<TableUpdates>>,
}

/// The statements one field change translates to. A rebuild plan must run
/// inside one transaction; a direct plan is a sequence of standalone
/// statements.
pub struct UpdatePlan {
    pub statements: Vec<Vec<char>>,
    pub rebuild: bool,
}

pub ghost struct UpdatePlanV {
    pub statements: Seq<Seq<char>>,
    pub rebuild: bool,
}

impl View for UpdatePlan {
    type V = UpdatePlanV;

    open spec fn view(&self) -> UpdatePlanV {
        UpdatePlanV { statements: self.statements.deep_view(), rebuild: self.rebuild }
    }
}

pub open spec fn missing_default_error(field: Seq<char>) -> ErrorV {
    ErrorV::Custom("No default value provided for "@ + field)
}

pub open spec fn missing_constraint_error(field: Seq<char>) -> ErrorV {
    ErrorV::Custom("No constraint data provided for "@ + field)
}

pub open spec fn malformed_schema_error(table: Seq<char>) -> ErrorV {
    ErrorV::Custom("Table definition too short for "@ + table)
}

/// The temporary name a rebuild swaps through.
pub open spec fn temp_table_name(table: Seq<char>) -> Seq<char> {
    "new_"@ + table
}

pub open spec fn add_column_statements(table: Seq<char>, u: SchemaFieldUpdateV) -> Seq<Seq<char>> {
    seq![
        "ALTER TABLE "@ + table + " ADD COLUMN "@ + u.new_name + " "@ + u.new_type,
        "UPDATE "@ + table + " SET "@ + u.new_name + " = "@ + u.default.unwrap(),
    ]
}

pub open spec fn rename_column_statement(
    table: Seq<char>,
    field: Seq<char>,
    u: SchemaFieldUpdateV,
) -> Seq<char> {
    "ALTER TABLE "@ + table + " RENAME COLUMN "@ + field + " TO "@ + u.new_name
}

pub open spec fn drop_column_statement(table: Seq<char>, field: Seq<char>) -> Seq<char> {
    "ALTER TABLE "@ + table + " DROP COLUMN "@ + field
}

/// The four statements of a rebuild-and-swap: create the rewritten table
/// under the temporary name, copy every row across, drop the original, and
/// rename the temporary table to the original name.
pub open spec fn rebuild_statements(table: Seq<char>, new_schema: Seq<char>) -> Seq<Seq<char>> {
    seq![
        new_schema,
        "INSERT INTO "@ + temp_table_name(table) + " SELECT * FROM "@ + table,
        "DROP TABLE "@ + table,
        "ALTER TABLE "@ + temp_table_name(table) + " RENAME TO "@ + table,
    ]
}

/// The definition text renamed to the temporary table name.
pub open spec fn renamed_schema(table: Seq<char>, schema: Seq<char>) -> Seq<char> {
    spec_replace_first(schema, table, temp_table_name(table))
}

/// What one field change yields: the plan of statements, or the
/// configuration error that rules it out.
pub open spec fn spec_plan(
    table: Seq<char>,
    field: Seq<char>,
    u: SchemaFieldUpdateV,
    schema: Option<Seq<char>>,
) -> Result<UpdatePlanV, ErrorV> {
    if u.update_type == 1 {
        if u.default is None {
            Err(missing_default_error(field))
        } else {
            Ok(UpdatePlanV { statements: add_column_statements(table, u), rebuild: false })
        }
    } else if u.update_type == 2 {
        Ok(
            UpdatePlanV {
                statements: seq![rename_column_statement(table, field, u)],
                rebuild: false,
            },
        )
    } else if u.update_type == 3 {
        Ok(UpdatePlanV { statements: seq![drop_column_statement(table, field)], rebuild: false })
    } else if u.update_type == 4 {
        if u.constraint_data is None {
            Err(missing_constraint_error(field))
        } else {
            let ls = spec_split(renamed_schema(table, schema.unwrap()), '\n');
            if ls.len() < 2 {
                Err(malformed_schema_error(table))
            } else {
                Ok(
                    UpdatePlanV {
                        statements: rebuild_statements(
                            table,
                            spec_join(
                                ls.insert(
                                    ls.len() - 2,
                                    constraint_line(field, u.constraint_data.unwrap()),
                                ),
                                '\n',
                            ),
                        ),
                        rebuild: true,
                    },
                )
            }
        }
    } else if u.update_type == 5 {
        if u.constraint_data is None {
            Err(missing_constraint_error(field))
        } else {
            let stripped = spec_join(
                remove_matching_lines(
                    spec_split(renamed_schema(table, schema.unwrap()), '\n'),
                    field,
                ),
                '\n',
            );
            let ls = spec_split(stripped, '\n');
            if ls.len() < 2 {
                Err(malformed_schema_error(table))
            } else {
                Ok(
                    UpdatePlanV {
                        statements: rebuild_statements(
                            table,
                            spec_join(
                                ls.insert(
                                    ls.len() - 2,
                                    constraint_line(u.new_name, u.constraint_data.unwrap()),
                                ),
                                '\n',
                            ),
                        ),
                        rebuild: true,
                    },
                )
            }
        }
    } else if u.update_type == 6 {
        Ok(
            UpdatePlanV {
                statements: rebuild_statements(
                    table,
                    spec_join(
                        remove_matching_lines(
                            spec_split(renamed_schema(table, schema.unwrap()), '\n'),
                            field,
                        ),
                        '\n',
                    ),
                ),
                rebuild: true,
            },
        )
    } else {
        Ok(UpdatePlanV { statements: seq![], rebuild: false })
    }
}

pub open spec fn plan_result_view(r: Result<UpdatePlan, Error>) -> Result<UpdatePlanV, ErrorV> {
    match r {
        Ok(p) => Ok(p@),
        Err(e) => Err(e@),
    }
}

fn two_statements(a: Vec<char>, b: Vec<char>) -> (r: Vec<Vec<char>>)
    ensures
        r.deep_view() =~= seq![a@, b@],
{
    let mut r: Vec<Vec<char>> = Vec::new();
    r.push(a);
    r.push(b);
    proof {
        assert(r.deep_view() =~~= seq![r@[0]@, r@[1]@]);
    }
    r
}

fn one_statement(a: Vec<char>) -> (r: Vec<Vec<char>>)
    ensures
        r.deep_view() =~= seq![a@],
{
    let mut r: Vec<Vec<char>> = Vec::new();
    r.push(a);
    proof {
        assert(r.deep_view() =~~= seq![r@[0]@]);
    }
    r
}

fn build_rebuild(table: &Vec<char>, temp: &Vec<char>, new_schema: Vec<char>) -> (r: Vec<Vec<char>>)
    requires
        temp@ == temp_table_name(table@),
    ensures
        r.deep_view() =~= rebuild_statements(table@, new_schema@),
{
    let mut copy_stmt = chars_of("INSERT INTO ");
    append_all(&mut copy_stmt, temp);
    let sel = chars_of(" SELECT * FROM ");
    append_all(&mut copy_stmt, &sel);
    append_all(&mut copy_stmt, table);
    let mut drop_stmt = chars_of("DROP TABLE ");
    append_all(&mut drop_stmt, table);
    let mut rename_stmt = chars_of("ALTER TABLE ");
    append_all(&mut rename_stmt, temp);
    let ren = chars_of(" RENAME TO ");
    append_all(&mut rename_stmt, &ren);
    append_all(&mut rename_stmt, table);
    let mut r: Vec<Vec<char>> = Vec::new();
    r.push(new_schema);
    r.push(copy_stmt);
    r.push(drop_stmt);
    r.push(rename_stmt);
    proof {
        assert(copy_stmt@ =~= "INSERT INTO "@ + temp_table_name(table@) + " SELECT * FROM "@
            + table@);
        assert(rename_stmt@ =~= "ALTER TABLE "@ + temp_table_name(table@) + " RENAME TO "@
            + table@);
        assert(r.deep_view() =~~= seq![r@[0]@, r@[1]@, r@[2]@, r@[3]@]);
        assert(r.deep_view() =~= rebuild_statements(table@, r@[0]@));
    }
    r
}

/// Translate one field change into its statements.
///
/// Direct column operations need no definition text; constraint operations
/// (`update_type` 4, 5 and 6) rewrite the table's current definition, which
/// the caller reads from the store and passes in. A missing default or a
/// missing constraint clause is a configuration error, reported before any
/// statement is issued; so is a definition text too short to carry a
/// constraint clause.
pub fn update_table_schema(
    table_name: &Vec<char>,
    field_name: &Vec<char>,
    update: &SchemaFieldUpdate,
    current_schema: Option<&Vec<char>>,
) -> (r: Result<UpdatePlan, Error>)
    requires
        update.update_type == 4 || update.update_type == 5 || update.update_type == 6
            ==> current_schema is Some,
    ensures
        plan_result_view(r) == spec_plan(
            table_name@,
            field_name@,
            update@,
            match current_schema {
                Some(v) => Some(v@),
                None => None,
            },
        ),
{
    if update.update_type == 1 {
        match &update.default {
            None => {
                let mut msg = chars_of("No default value provided for ");
                append_all(&mut msg, field_name);
                Err(Error::Custom(msg))
            },
            Some(default) => {
                let mut add_stmt = chars_of("ALTER TABLE ");
                append_all(&mut add_stmt, table_name);
                let addcol = chars_of(" ADD COLUMN ");
                append_all(&mut add_stmt, &addcol);
                append_all(&mut add_stmt, &update.new_name);
                let sp = chars_of(" ");
                append_all(&mut add_stmt, &sp);
                append_all(&mut add_stmt, &update.new_type);
                let mut set_stmt = chars_of("UPDATE ");
                append_all(&mut set_stmt, table_name);
                let set = chars_of(" SET ");
                append_all(&mut set_stmt, &set);
                append_all(&mut set_stmt, &update.new_name);
                let eq = chars_of(" = ");
                append_all(&mut set_stmt, &eq);
                append_all(&mut set_stmt, default);
                proof {
                    assert(add_stmt@ =~= add_column_statements(table_name@, update@)[0]);
                    assert(set_stmt@ =~= add_column_statements(table_name@, update@)[1]);
                }
                let statements = two_statements(add_stmt, set_stmt);
                proof {
                    assert(statements.deep_view() =~= add_column_statements(table_name@, update@));
                }
                Ok(UpdatePlan { statements, rebuild: false })
            },
        }
    } else if update.update_type == 2 {
        let mut stmt = chars_of("ALTER TABLE ");
        append_all(&mut stmt, table_name);
        let rencol = chars_of(" RENAME COLUMN ");
        append_all(&mut stmt, &rencol);
        append_all(&mut stmt, field_name);
        let to = chars_of(" TO ");
        append_all(&mut stmt, &to);
        append_all(&mut stmt, &update.new_name);
        proof {
            assert(stmt@ =~= rename_column_statement(table_name@, field_name@, update@));
        }
        let statements = one_statement(stmt);
        Ok(UpdatePlan { statements, rebuild: false })
    } else if update.update_type == 3 {
        let mut stmt = chars_of("ALTER TABLE ");
        append_all(&mut stmt, table_name);
        let dropcol = chars_of(" DROP COLUMN ");
        append_all(&mut stmt, &dropcol);
        append_all(&mut stmt, field_name);
        proof {
            assert(stmt@ =~= drop_column_statement(table_name@, field_name@));
        }
        let statements = one_statement(stmt);
        Ok(UpdatePlan { statements, rebuild: false })
    } else if update.update_type == 4 {
        match &update.constraint_data {
            None => {
                let mut msg = chars_of("No constraint data provided for ");
                append_all(&mut msg, field_name);
                Err(Error::Custom(msg))
            },
            Some(constraint_data) => {
                let schema = match current_schema {
                    Some(schema) => schema,
                    None => {
                        return unreached();
                    },
                };
                let mut temp = chars_of("new_");
                append_all(&mut temp, table_name);
                let modifier = SchemaModifier {
                    table_name: copy_chars(table_name),
                    schema: copy_chars(schema),
                };
                let renamed = modifier.change_table_name(&temp);
                let lines = split_on(&renamed.schema, '\n');
                if lines.len() < 2 {
                    let mut msg = chars_of("Table definition too short for ");
                    append_all(&mut msg, table_name);
                    Err(Error::Custom(msg))
                } else {
                    let with_constraint = renamed.add_constraint(field_name, constraint_data);
                    let statements = build_rebuild(table_name, &temp, with_constraint.schema);
                    Ok(UpdatePlan { statements, rebuild: true })
                }
            },
        }
    } else if update.update_type == 5 {
        match &update.constraint_data {
            None => {
                let mut msg = chars_of("No constraint data provided for ");
                append_all(&mut msg, field_name);
                Err(Error::Custom(msg))
            },
            Some(constraint_data) => {
                let schema = match current_schema {
                    Some(schema) => schema,
                    None => {
                        return unreached();
                    },
                };
                let mut temp = chars_of("new_");
                append_all(&mut temp, table_name);
                let modifier = SchemaModifier {
                    table_name: copy_chars(table_name),
                    schema: copy_chars(schema),
                };
                let stripped = modifier.change_table_name(&temp).remove_constraint(field_name);
                let lines = split_on(&stripped.schema, '\n');
                if lines.len() < 2 {
                    let mut msg = chars_of("Table definition too short for ");
                    append_all(&mut msg, table_name);
                    Err(Error::Custom(msg))
                } else {
                    let with_constraint = stripped.add_constraint(
                        &update.new_name,
                        constraint_data,
                    );
                    let statements = build_rebuild(table_name, &temp, with_constraint.schema);
                    Ok(UpdatePlan { statements, rebuild: true })
                }
            },
        }
    } else if update.update_type == 6 {
        let schema = match current_schema {
            Some(schema) => schema,
            None => {
                return unreached();
            },
        };
        let mut temp = chars_of("new_");
        append_all(&mut temp, table_name);
        let modifier = SchemaModifier {
            table_name: copy_chars(table_name),
            schema: copy_chars(schema),
        };
        let stripped = modifier.change_table_name(&temp).remove_constraint(field_name);
        let statements = build_rebuild(table_name, &temp, stripped.schema);
        Ok(UpdatePlan { statements, rebuild: true })
    } else {
        let statements: Vec<Vec<char>> = Vec::new();
        proof {
            assert(statements.deep_view() =~= Seq::<Seq<char>>::empty());
        }
        Ok(UpdatePlan { statements, rebuild: false })
    }
}

} // verus!
