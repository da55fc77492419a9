//! Sample sources of each supported diagram type.

use vstd::prelude::*;

verus! {

/// Flowchart: several node shapes, an edge label and a branch.
pub open spec fn flowchart_sample_text() -> Seq<char> {
    "flowchart TD\n    A[Start] --> B{Choice?}\n    B -->|yes| C[Action]\n    B -->|no| D[(Database)]\n    C --> E((End))\n    D --> E"@
}

/// Flowchart: several node shapes, an edge label and a branch.
pub fn flowchart_sample() -> (r: &'static str)
    ensures
        r@ == flowchart_sample_text(),
{
    "flowchart TD\n    A[Start] --> B{Choice?}\n    B -->|yes| C[Action]\n    B -->|no| D[(Database)]\n    C --> E((End))\n    D --> E"
}

/// Class diagram: inheritance and members.
pub open spec fn class_sample_text() -> Seq<char> {
    "classDiagram\n    Animal <|-- Dog\n    Animal <|-- Cat\n    Animal : +name: string\n    Animal : +speak() string\n    Dog : +bark() string\n    Cat : +purr() string"@
}

/// Class diagram: inheritance and members.
pub fn class_sample() -> (r: &'static str)
    ensures
        r@ == class_sample_text(),
{
    "classDiagram\n    Animal <|-- Dog\n    Animal <|-- Cat\n    Animal : +name: string\n    Animal : +speak() string\n    Dog : +bark() string\n    Cat : +purr() string"
}

/// State diagram: transitions between states.
pub open spec fn state_sample_text() -> Seq<char> {
    "stateDiagram-v2\n    [*] --> Idle\n    Idle --> Running : start\n    Running --> Paused : pause\n    Paused --> Running : resume\n    Running --> Idle : stop\n    Idle --> [*]"@
}

/// State diagram: transitions between states.
pub fn state_sample() -> (r: &'static str)
    ensures
        r@ == state_sample_text(),
{
    "stateDiagram-v2\n    [*] --> Idle\n    Idle --> Running : start\n    Running --> Paused : pause\n    Paused --> Running : resume\n    Running --> Idle : stop\n    Idle --> [*]"
}

/// ER diagram: entities and relationships.
pub open spec fn er_sample_text() -> Seq<char> {
    "erDiagram\n    CUSTOMER ||--o{ ORDER : places\n    ORDER ||--|{ LINE-ITEM : contains\n    PRODUCT ||--o{ LINE-ITEM : \"ordered in\"\n    CUSTOMER {\n        string name\n        int age\n    }"@
}

/// ER diagram: entities and relationships.
pub fn er_sample() -> (r: &'static str)
    ensures
        r@ == er_sample_text(),
{
    "erDiagram\n    CUSTOMER ||--o{ ORDER : places\n    ORDER ||--|{ LINE-ITEM : contains\n    PRODUCT ||--o{ LINE-ITEM : \"ordered in\"\n    CUSTOMER {\n        string name\n        int age\n    }"
}

/// Requirement diagram: a requirement traced to an element.
pub open spec fn requirement_sample_text() -> Seq<char> {
    "requirementDiagram\n    requirement test_req {\n        id: 1\n        text: the test text\n        risk: high\n        verifymethod: test\n    }\n    element test_entity {\n        type: simulation\n    }\n    test_entity - satisfies -> test_req"@
}

/// Requirement diagram: a requirement traced to an element.
pub fn requirement_sample() -> (r: &'static str)
    ensures
        r@ == requirement_sample_text(),
{
    "requirementDiagram\n    requirement test_req {\n        id: 1\n        text: the test text\n        risk: high\n        verifymethod: test\n    }\n    element test_entity {\n        type: simulation\n    }\n    test_entity - satisfies -> test_req"
}

/// Packet diagram: fields of a network packet.
pub open spec fn packet_sample_text() -> Seq<char> {
    "packet\n    0-7 : Source Port\n    8-15 : Destination Port\n    16-31 : Sequence Number\n    32-47 : Acknowledgment Number"@
}

/// Packet diagram: fields of a network packet.
pub fn packet_sample() -> (r: &'static str)
    ensures
        r@ == packet_sample_text(),
{
    "packet\n    0-7 : Source Port\n    8-15 : Destination Port\n    16-31 : Sequence Number\n    32-47 : Acknowledgment Number"
}

/// Sequence diagram: messages, activations, a note and a loop.
pub open spec fn sequence_sample_text() -> Seq<char> {
    "sequenceDiagram\n    participant Client\n    participant Server\n    participant Database\n\n    Client->>Server: HTTP Request\n    activate Server\n    Server->>Database: Query\n    activate Database\n    Database-->>Server: Results\n    deactivate Database\n    Server-->>Client: Response\n    deactivate Server\n\n    Note right of Server: Processing complete\n\n    loop Periodic health check\n        Client->>Server: Ping\n        Server-->>Client: Pong\n    end"@
}

/// Sequence diagram: messages, activations, a note and a loop.
pub fn sequence_sample() -> (r: &'static str)
    ensures
        r@ == sequence_sample_text(),
{
    "sequenceDiagram\n    participant Client\n    participant Server\n    participant Database\n\n    Client->>Server: HTTP Request\n    activate Server\n    Server->>Database: Query\n    activate Database\n    Database-->>Server: Results\n    deactivate Database\n    Server-->>Client: Response\n    deactivate Server\n\n    Note right of Server: Processing complete\n\n    loop Periodic health check\n        Client->>Server: Ping\n        Server-->>Client: Pong\n    end"
}

} // verus!
