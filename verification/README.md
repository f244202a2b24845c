# iam-policy-autopilot

Finds the AWS SDK calls in source code and in Terraform plans, derives models of libraries that
call the SDK, and reviews changes for the IAM permissions that they add or remove.

`src/` is the library. Its functions state what they return in `requires` and `ensures` clauses,
which Verus proves. Calls into other crates stand behind a few functions marked
`external_body`; the comment above each of them says what is taken for granted.

| module | what it does |
| --- | --- |
| `java` | SDK calls in Java code: imports, scopes of variables, calls, waiters, paginators, utilities |
| `javascript` | SDK calls in JavaScript and TypeScript code |
| `framework` | one rule out of the rules of several extractors, and what a match belongs to |
| `terraform` | SDK calls behind the changes of a Terraform plan |
| `input_kind`, `extraction` | what kind of inputs a run has, and what is extracted from plans |
| `call_graph`, `call_hierarchy`, `lsp` | call graphs, and the protocol of language servers |
| `go`, `go_conventions`, `generate_model`, `model_generation`, `library_model` | models of Go libraries |
| `review`, `policy_checker` | comments on changes, and actions held against a policy |
| `service_configuration`, `versions`, `commands`, `lints` | names of services, versions, the commands, a lint |
| `order`, `call_order`, `text`, `text_map`, `paths`, `json`, `casing` | what the others are built on |

Laws that relate several functions are public `proof fn`s beside them. Paths are read as on Unix.

`app/` is the unverified part: files, processes, language servers and JSON. `tests/` runs the
library.
