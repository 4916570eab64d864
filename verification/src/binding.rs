//! What a validation hash binds: its material can be read back from the text that is hashed.
use vstd::prelude::*;
use crate::changeset::{change_material, dependency_json, material_digest, material_json, operation_json, operation_name, operations_digest, operations_json, ChangeModel, DependencyModel, MaterialModel, OperationKind, OperationModel};
use crate::hash::digest_text;
use crate::json::{apart, json_ids, json_list, json_opt, json_string, lemma_decimal_apart, lemma_json_ids_apart, lemma_json_list_apart, lemma_json_opt_apart, lemma_json_string_apart, lemma_regroup, lemma_same_rest};
use crate::text::{decimal, decoding_inverts_encoding, utf8};

verus! {

/// The JSON array of dependencies.
pub open spec fn dependencies_json(list: Seq<DependencyModel>) -> Seq<char> {
    json_list(list.map_values(|item: DependencyModel| dependency_json(item)))
}

/// The JSON object of a dependency and the text behind it, read from the front.
spec fn dependency_nested(dep: DependencyModel, tail: Seq<char>) -> Seq<char> {
    "{\"id\":"@ + (json_string(dep.0) + (",\"approval_record_sha256\":"@ + (json_string(dep.1)
        + (",\"chapter_order\":"@ + (decimal(dep.2 as nat) + ("}"@ + tail))))))
}

proof fn lemma_dependency_nested(dep: DependencyModel, tail: Seq<char>)
    ensures
        dependency_json(dep) + tail == dependency_nested(dep, tail),
{
    let a0 = "{\"id\":"@;
    let a1 = json_string(dep.0);
    let a2 = ",\"approval_record_sha256\":"@;
    let a3 = json_string(dep.1);
    let a4 = ",\"chapter_order\":"@;
    let a5 = decimal(dep.2 as nat);
    let a6 = "}"@;
    let x0 = a0;
    let x1 = x0 + a1;
    let x2 = x1 + a2;
    let x3 = x2 + a3;
    let x4 = x3 + a4;
    let x5 = x4 + a5;
    let x6 = x5 + a6;
    let y7 = tail;
    let y6 = a6 + y7;
    let y5 = a5 + y6;
    let y4 = a4 + y5;
    let y3 = a3 + y4;
    let y2 = a2 + y3;
    let y1 = a1 + y2;
    lemma_regroup(x5, a6, y7);
    lemma_regroup(x4, a5, y6);
    lemma_regroup(x3, a4, y5);
    lemma_regroup(x2, a3, y4);
    lemma_regroup(x1, a2, y3);
    lemma_regroup(x0, a1, y2);
}

/// The JSON object of a dependency determines it, whatever stands behind it.
proof fn lemma_dependency_apart(a: DependencyModel, b: DependencyModel, x: Seq<char>, y: Seq<char>)
    requires
        dependency_json(a) + x == dependency_json(b) + y,
    ensures
        a == b,
        x == y,
{
    lemma_dependency_nested(a, x);
    lemma_dependency_nested(b, y);
    let p7 = x;
    let q7 = y;
    let p6 = "}"@ + p7;
    let q6 = "}"@ + q7;
    let p5 = decimal(a.2 as nat) + p6;
    let q5 = decimal(b.2 as nat) + q6;
    let p4 = ",\"chapter_order\":"@ + p5;
    let q4 = ",\"chapter_order\":"@ + q5;
    let p3 = json_string(a.1) + p4;
    let q3 = json_string(b.1) + q4;
    let p2 = ",\"approval_record_sha256\":"@ + p3;
    let q2 = ",\"approval_record_sha256\":"@ + q3;
    let p1 = json_string(a.0) + p2;
    let q1 = json_string(b.0) + q2;
    lemma_same_rest("{\"id\":"@, p1, q1);
    lemma_json_string_apart(a.0, b.0, p2, q2);
    lemma_same_rest(",\"approval_record_sha256\":"@, p3, q3);
    lemma_json_string_apart(a.1, b.1, p4, q4);
    lemma_same_rest(",\"chapter_order\":"@, p5, q5);
    reveal_strlit("}");
    assert(p6[0] == "}"@[0] && q6[0] == "}"@[0]);
    lemma_decimal_apart(a.2 as nat, b.2 as nat, p6, q6);
    lemma_same_rest("}"@, p7, q7);
}

/// The JSON array of dependencies determines them, whatever stands behind it.
proof fn lemma_dependencies_apart(
    a: Seq<DependencyModel>,
    b: Seq<DependencyModel>,
    x: Seq<char>,
    y: Seq<char>,
)
    requires
        dependencies_json(a) + x == dependencies_json(b) + y,
    ensures
        a == b,
        x == y,
{
    let s = a.map_values(|item: DependencyModel| dependency_json(item));
    let t = b.map_values(|item: DependencyModel| dependency_json(item));
    assert forall|i: int, j: int| 0 <= i < s.len() && 0 <= j < t.len() implies apart(
        #[trigger] s[i],
        #[trigger] t[j],
    ) by {
        assert forall|p: Seq<char>, q: Seq<char>|
            #![trigger s[i] + p, t[j] + q]
            s[i] + p == t[j] + q implies s[i] == t[j] by {
            lemma_dependency_apart(a[i], b[j], p, q);
        }
    }
    assert forall|i: int| 0 <= i < s.len() implies (#[trigger] s[i]).len() > 0 && s[i][0]
        != ']' by {
        lemma_dependency_opens(a[i]);
    }
    assert forall|i: int| 0 <= i < t.len() implies (#[trigger] t[i]).len() > 0 && t[i][0]
        != ']' by {
        lemma_dependency_opens(b[i]);
    }
    lemma_json_list_apart(s, t, x, y);
    assert forall|i: int| 0 <= i < a.len() implies a[i] == b[i] by {
        assert(s[i] == t[i]);
        lemma_dependency_apart(a[i], b[i], Seq::empty(), Seq::empty());
    }
    assert(s.len() == a.len() && t.len() == b.len());
    assert(a =~= b);
}

proof fn lemma_dependency_opens(item: DependencyModel)
    ensures
        dependency_json(item).len() > 0,
        dependency_json(item)[0] == '{',
{
    reveal_strlit("{\"id\":");
    lemma_dependency_nested(item, Seq::empty());
    assert(dependency_json(item) + Seq::<char>::empty() =~= dependency_json(item));
}

proof fn lemma_operation_names_apart(a: OperationKind, b: OperationKind)
    requires
        operation_name(a) == operation_name(b),
    ensures
        a == b,
{
    reveal_strlit("create");
    reveal_strlit("replace");
    reveal_strlit("delete");
    assert("create"@[0] == 'c');
    assert("delete"@[0] == 'd');
}

/// The JSON object of an operation and the text behind it, read from the front.
spec fn operation_nested(op: OperationModel, tail: Seq<char>) -> Seq<char> {
    "{\"kind\":"@ + (json_string(operation_name(op.kind)) + (",\"path\":"@ + (json_string(op.path)
        + (",\"before_sha256\":"@ + (json_opt(op.before_sha256) + (",\"after_sha256\":"@
        + (json_opt(op.after_sha256) + (",\"candidate_path\":"@ + (json_opt(op.candidate_path)
        + (",\"affected_entities\":"@ + (json_list(json_ids(op.affected_entities))
        + ("}"@ + tail))))))))))))
}

proof fn lemma_operation_nested(op: OperationModel, tail: Seq<char>)
    ensures
        operation_json(op) + tail == operation_nested(op, tail),
{
    let a0 = "{\"kind\":"@;
    let a1 = json_string(operation_name(op.kind));
    let a2 = ",\"path\":"@;
    let a3 = json_string(op.path);
    let a4 = ",\"before_sha256\":"@;
    let a5 = json_opt(op.before_sha256);
    let a6 = ",\"after_sha256\":"@;
    let a7 = json_opt(op.after_sha256);
    let a8 = ",\"candidate_path\":"@;
    let a9 = json_opt(op.candidate_path);
    let a10 = ",\"affected_entities\":"@;
    let a11 = json_list(json_ids(op.affected_entities));
    let a12 = "}"@;
    let x0 = a0;
    let x1 = x0 + a1;
    let x2 = x1 + a2;
    let x3 = x2 + a3;
    let x4 = x3 + a4;
    let x5 = x4 + a5;
    let x6 = x5 + a6;
    let x7 = x6 + a7;
    let x8 = x7 + a8;
    let x9 = x8 + a9;
    let x10 = x9 + a10;
    let x11 = x10 + a11;
    let x12 = x11 + a12;
    let y13 = tail;
    let y12 = a12 + y13;
    let y11 = a11 + y12;
    let y10 = a10 + y11;
    let y9 = a9 + y10;
    let y8 = a8 + y9;
    let y7 = a7 + y8;
    let y6 = a6 + y7;
    let y5 = a5 + y6;
    let y4 = a4 + y5;
    let y3 = a3 + y4;
    let y2 = a2 + y3;
    let y1 = a1 + y2;
    lemma_regroup(x11, a12, y13);
    lemma_regroup(x10, a11, y12);
    lemma_regroup(x9, a10, y11);
    lemma_regroup(x8, a9, y10);
    lemma_regroup(x7, a8, y9);
    lemma_regroup(x6, a7, y8);
    lemma_regroup(x5, a6, y7);
    lemma_regroup(x4, a5, y6);
    lemma_regroup(x3, a4, y5);
    lemma_regroup(x2, a3, y4);
    lemma_regroup(x1, a2, y3);
    lemma_regroup(x0, a1, y2);
}

/// The JSON object of an operation determines it, whatever stands behind it.
proof fn lemma_operation_apart(a: OperationModel, b: OperationModel, x: Seq<char>, y: Seq<char>)
    requires
        operation_json(a) + x == operation_json(b) + y,
    ensures
        a == b,
        x == y,
{
    lemma_operation_nested(a, x);
    lemma_operation_nested(b, y);
    let p13 = x;
    let q13 = y;
    let p12 = "}"@ + p13;
    let q12 = "}"@ + q13;
    let p11 = json_list(json_ids(a.affected_entities)) + p12;
    let q11 = json_list(json_ids(b.affected_entities)) + q12;
    let p10 = ",\"affected_entities\":"@ + p11;
    let q10 = ",\"affected_entities\":"@ + q11;
    let p9 = json_opt(a.candidate_path) + p10;
    let q9 = json_opt(b.candidate_path) + q10;
    let p8 = ",\"candidate_path\":"@ + p9;
    let q8 = ",\"candidate_path\":"@ + q9;
    let p7 = json_opt(a.after_sha256) + p8;
    let q7 = json_opt(b.after_sha256) + q8;
    let p6 = ",\"after_sha256\":"@ + p7;
    let q6 = ",\"after_sha256\":"@ + q7;
    let p5 = json_opt(a.before_sha256) + p6;
    let q5 = json_opt(b.before_sha256) + q6;
    let p4 = ",\"before_sha256\":"@ + p5;
    let q4 = ",\"before_sha256\":"@ + q5;
    let p3 = json_string(a.path) + p4;
    let q3 = json_string(b.path) + q4;
    let p2 = ",\"path\":"@ + p3;
    let q2 = ",\"path\":"@ + q3;
    let p1 = json_string(operation_name(a.kind)) + p2;
    let q1 = json_string(operation_name(b.kind)) + q2;
    lemma_same_rest("{\"kind\":"@, p1, q1);
    lemma_json_string_apart(operation_name(a.kind), operation_name(b.kind), p2, q2);
    lemma_same_rest(",\"path\":"@, p3, q3);
    lemma_json_string_apart(a.path, b.path, p4, q4);
    lemma_same_rest(",\"before_sha256\":"@, p5, q5);
    lemma_json_opt_apart(a.before_sha256, b.before_sha256, p6, q6);
    lemma_same_rest(",\"after_sha256\":"@, p7, q7);
    lemma_json_opt_apart(a.after_sha256, b.after_sha256, p8, q8);
    lemma_same_rest(",\"candidate_path\":"@, p9, q9);
    lemma_json_opt_apart(a.candidate_path, b.candidate_path, p10, q10);
    lemma_same_rest(",\"affected_entities\":"@, p11, q11);
    lemma_json_ids_apart(a.affected_entities, b.affected_entities, p12, q12);
    lemma_same_rest("}"@, p13, q13);
    lemma_operation_names_apart(a.kind, b.kind);
}

/// The JSON array of operations determines them, whatever stands behind it.
proof fn lemma_operations_apart(
    a: Seq<OperationModel>,
    b: Seq<OperationModel>,
    x: Seq<char>,
    y: Seq<char>,
)
    requires
        operations_json(a) + x == operations_json(b) + y,
    ensures
        a == b,
        x == y,
{
    let s = a.map_values(|item: OperationModel| operation_json(item));
    let t = b.map_values(|item: OperationModel| operation_json(item));
    assert forall|i: int, j: int| 0 <= i < s.len() && 0 <= j < t.len() implies apart(
        #[trigger] s[i],
        #[trigger] t[j],
    ) by {
        assert forall|p: Seq<char>, q: Seq<char>|
            #![trigger s[i] + p, t[j] + q]
            s[i] + p == t[j] + q implies s[i] == t[j] by {
            lemma_operation_apart(a[i], b[j], p, q);
        }
    }
    assert forall|i: int| 0 <= i < s.len() implies (#[trigger] s[i]).len() > 0 && s[i][0]
        != ']' by {
        lemma_operation_opens(a[i]);
    }
    assert forall|i: int| 0 <= i < t.len() implies (#[trigger] t[i]).len() > 0 && t[i][0]
        != ']' by {
        lemma_operation_opens(b[i]);
    }
    lemma_json_list_apart(s, t, x, y);
    assert forall|i: int| 0 <= i < a.len() implies a[i] == b[i] by {
        assert(s[i] == t[i]);
        lemma_operation_apart(a[i], b[i], Seq::empty(), Seq::empty());
    }
    assert(s.len() == a.len() && t.len() == b.len());
    assert(a =~= b);
}

proof fn lemma_operation_opens(item: OperationModel)
    ensures
        operation_json(item).len() > 0,
        operation_json(item)[0] == '{',
{
    reveal_strlit("{\"kind\":");
    lemma_operation_nested(item, Seq::empty());
    assert(operation_json(item) + Seq::<char>::empty() =~= operation_json(item));
}

/// The JSON object of validation material and the text behind it, read from the front.
spec fn material_nested(m: MaterialModel, tail: Seq<char>) -> Seq<char> {
    "{\"id\":"@ + (json_string(m.id) + (",\"base_root_hash\":"@ + (json_string(m.base_root_hash)
        + (",\"content_result_hash\":"@ + (json_string(m.content_result_hash)
        + (",\"operations_hash\":"@ + (json_string(m.operations_hash) + (",\"candidate_hash\":"@
        + (json_string(m.candidate_hash) + (",\"dependencies\":"@
        + (dependencies_json(m.dependencies) + (",\"chapter_order\":"@
        + (decimal(m.chapter_order as nat) + ("}"@ + tail))))))))))))))
}

proof fn lemma_material_nested(m: MaterialModel, tail: Seq<char>)
    ensures
        material_json(m) + tail == material_nested(m, tail),
{
    let a0 = "{\"id\":"@;
    let a1 = json_string(m.id);
    let a2 = ",\"base_root_hash\":"@;
    let a3 = json_string(m.base_root_hash);
    let a4 = ",\"content_result_hash\":"@;
    let a5 = json_string(m.content_result_hash);
    let a6 = ",\"operations_hash\":"@;
    let a7 = json_string(m.operations_hash);
    let a8 = ",\"candidate_hash\":"@;
    let a9 = json_string(m.candidate_hash);
    let a10 = ",\"dependencies\":"@;
    let a11 = dependencies_json(m.dependencies);
    let a12 = ",\"chapter_order\":"@;
    let a13 = decimal(m.chapter_order as nat);
    let a14 = "}"@;
    let x0 = a0;
    let x1 = x0 + a1;
    let x2 = x1 + a2;
    let x3 = x2 + a3;
    let x4 = x3 + a4;
    let x5 = x4 + a5;
    let x6 = x5 + a6;
    let x7 = x6 + a7;
    let x8 = x7 + a8;
    let x9 = x8 + a9;
    let x10 = x9 + a10;
    let x11 = x10 + a11;
    let x12 = x11 + a12;
    let x13 = x12 + a13;
    let x14 = x13 + a14;
    let y15 = tail;
    let y14 = a14 + y15;
    let y13 = a13 + y14;
    let y12 = a12 + y13;
    let y11 = a11 + y12;
    let y10 = a10 + y11;
    let y9 = a9 + y10;
    let y8 = a8 + y9;
    let y7 = a7 + y8;
    let y6 = a6 + y7;
    let y5 = a5 + y6;
    let y4 = a4 + y5;
    let y3 = a3 + y4;
    let y2 = a2 + y3;
    let y1 = a1 + y2;
    lemma_regroup(x13, a14, y15);
    lemma_regroup(x12, a13, y14);
    lemma_regroup(x11, a12, y13);
    lemma_regroup(x10, a11, y12);
    lemma_regroup(x9, a10, y11);
    lemma_regroup(x8, a9, y10);
    lemma_regroup(x7, a8, y9);
    lemma_regroup(x6, a7, y8);
    lemma_regroup(x5, a6, y7);
    lemma_regroup(x4, a5, y6);
    lemma_regroup(x3, a4, y5);
    lemma_regroup(x2, a3, y4);
    lemma_regroup(x1, a2, y3);
    lemma_regroup(x0, a1, y2);
}

/// The JSON object of validation material determines it, whatever stands behind it.
proof fn lemma_material_apart(a: MaterialModel, b: MaterialModel, x: Seq<char>, y: Seq<char>)
    requires
        material_json(a) + x == material_json(b) + y,
    ensures
        a == b,
        x == y,
{
    lemma_material_nested(a, x);
    lemma_material_nested(b, y);
    let p15 = x;
    let q15 = y;
    let p14 = "}"@ + p15;
    let q14 = "}"@ + q15;
    let p13 = decimal(a.chapter_order as nat) + p14;
    let q13 = decimal(b.chapter_order as nat) + q14;
    let p12 = ",\"chapter_order\":"@ + p13;
    let q12 = ",\"chapter_order\":"@ + q13;
    let p11 = dependencies_json(a.dependencies) + p12;
    let q11 = dependencies_json(b.dependencies) + q12;
    let p10 = ",\"dependencies\":"@ + p11;
    let q10 = ",\"dependencies\":"@ + q11;
    let p9 = json_string(a.candidate_hash) + p10;
    let q9 = json_string(b.candidate_hash) + q10;
    let p8 = ",\"candidate_hash\":"@ + p9;
    let q8 = ",\"candidate_hash\":"@ + q9;
    let p7 = json_string(a.operations_hash) + p8;
    let q7 = json_string(b.operations_hash) + q8;
    let p6 = ",\"operations_hash\":"@ + p7;
    let q6 = ",\"operations_hash\":"@ + q7;
    let p5 = json_string(a.content_result_hash) + p6;
    let q5 = json_string(b.content_result_hash) + q6;
    let p4 = ",\"content_result_hash\":"@ + p5;
    let q4 = ",\"content_result_hash\":"@ + q5;
    let p3 = json_string(a.base_root_hash) + p4;
    let q3 = json_string(b.base_root_hash) + q4;
    let p2 = ",\"base_root_hash\":"@ + p3;
    let q2 = ",\"base_root_hash\":"@ + q3;
    let p1 = json_string(a.id) + p2;
    let q1 = json_string(b.id) + q2;
    lemma_same_rest("{\"id\":"@, p1, q1);
    lemma_json_string_apart(a.id, b.id, p2, q2);
    lemma_same_rest(",\"base_root_hash\":"@, p3, q3);
    lemma_json_string_apart(a.base_root_hash, b.base_root_hash, p4, q4);
    lemma_same_rest(",\"content_result_hash\":"@, p5, q5);
    lemma_json_string_apart(a.content_result_hash, b.content_result_hash, p6, q6);
    lemma_same_rest(",\"operations_hash\":"@, p7, q7);
    lemma_json_string_apart(a.operations_hash, b.operations_hash, p8, q8);
    lemma_same_rest(",\"candidate_hash\":"@, p9, q9);
    lemma_json_string_apart(a.candidate_hash, b.candidate_hash, p10, q10);
    lemma_same_rest(",\"dependencies\":"@, p11, q11);
    lemma_dependencies_apart(a.dependencies, b.dependencies, p12, q12);
    lemma_same_rest(",\"chapter_order\":"@, p13, q13);
    reveal_strlit("}");
    assert(p14[0] == "}"@[0] && q14[0] == "}"@[0]);
    lemma_decimal_apart(a.chapter_order as nat, b.chapter_order as nat, p14, q14);
    lemma_same_rest("}"@, p15, q15);
}

proof fn lemma_utf8_apart(a: Seq<char>, b: Seq<char>)
    requires
        utf8(a) == utf8(b),
    ensures
        a == b,
{
    decoding_inverts_encoding(a);
    decoding_inverts_encoding(b);
}

/// The text that is hashed is the same exactly where the validation material is.
pub proof fn hashed_text_determines_the_material(a: MaterialModel, b: MaterialModel)
    ensures
        material_json(a) == material_json(b) <==> a == b,
{
    if material_json(a) == material_json(b) {
        let end = Seq::<char>::empty();
        lemma_material_apart(a, b, end, end);
    }
}

/// Whether two byte strings are no collision of the digest.
pub open spec fn no_collision(a: Seq<u8>, b: Seq<u8>) -> bool {
    digest_text(a) == digest_text(b) ==> a == b
}

/// Whether two changesets agree on everything that their validation covers.
pub open spec fn same_material(a: ChangeModel, b: ChangeModel) -> bool {
    &&& a.id == b.id
    &&& a.base_root_hash == b.base_root_hash
    &&& a.content_result_hash == b.content_result_hash
    &&& a.operations == b.operations
    &&& a.candidate_hash == b.candidate_hash
    &&& a.dependencies == b.dependencies
    &&& a.chapter_order == b.chapter_order
}

/// The text that is hashed for a validation is the same exactly where two changesets agree on
/// identifier, base, content, operations, candidate, dependencies and chapter order.  The digests
/// of the operations, which stand in the text, must not collide.
pub proof fn hashed_text_binds_the_changeset(a: ChangeModel, b: ChangeModel)
    requires
        no_collision(utf8(operations_json(a.operations)), utf8(operations_json(b.operations))),
    ensures
        material_json(change_material(a)) == material_json(change_material(b)) <==> same_material(
            a,
            b,
        ),
{
    hashed_text_determines_the_material(change_material(a), change_material(b));
    if change_material(a) == change_material(b) {
        assert(operations_digest(a.operations) == operations_digest(b.operations));
        lemma_utf8_apart(operations_json(a.operations), operations_json(b.operations));
        let end = Seq::<char>::empty();
        lemma_operations_apart(a.operations, b.operations, end, end);
    }
}

/// Two changesets have the same validation hash exactly where they agree on identifier, base,
/// content, operations, candidate, dependencies and chapter order; nothing else has an influence.
/// The digests of the texts that are hashed must not collide.
pub proof fn validation_hash_binds_the_changeset(a: ChangeModel, b: ChangeModel)
    requires
        no_collision(
            utf8(material_json(change_material(a))),
            utf8(material_json(change_material(b))),
        ),
        no_collision(utf8(operations_json(a.operations)), utf8(operations_json(b.operations))),
    ensures
        material_digest(change_material(a)) == material_digest(change_material(b))
            <==> same_material(a, b),
{
    hashed_text_binds_the_changeset(a, b);
    if material_digest(change_material(a)) == material_digest(change_material(b)) {
        lemma_utf8_apart(material_json(change_material(a)), material_json(change_material(b)));
    }
}

} // verus!
