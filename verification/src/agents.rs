//! The assistant-agent vocabulary: the roles a conversation message can
//! have, the specialized agent kinds, and each kind's system prompt and
//! capability tags.

use vstd::prelude::*;

verus! {

/// Who a conversation message speaks for.
#[derive(Debug, Clone, Copy, PartialEq, Eq, Structural)]
pub enum MessageRole {
    User,
    Assistant,
    System,
}

/// The specialized agents on offer.
#[derive(Debug, Clone, Copy, PartialEq, Eq, Structural)]
pub enum AgentType {
    CodeExplainer,
    CodeReviewer,
    TestGenerator,
    GitAssistant,
    UIDesigner,
    SystemArchitect,
    DocumentationWriter,
    Debugger,
}

/// The system prompt each agent kind speaks with.
pub open spec fn system_prompt_of(a: AgentType) -> Seq<char> {
    match a {
        AgentType::CodeExplainer => "You are a code explanation specialist. Your role is to analyze code and provide clear, comprehensive explanations of how it works. Focus on:\n- Breaking down complex logic into simple terms\n- Explaining the purpose and functionality of each component\n- Identifying patterns, algorithms, and design principles\n- Highlighting potential issues or improvements\n- Providing context about how the code fits into the larger system"@,
        AgentType::CodeReviewer => "You are a senior code critic. Your role is to provide thorough, constructive code assessments. Focus on:\n- Code quality, readability, and maintainability\n- Performance implications and optimizations\n- Security vulnerabilities and best practices\n- Architectural concerns and design patterns\n- Testing coverage and edge cases\n- Documentation and naming conventions"@,
        AgentType::TestGenerator => "You are a test automation specialist. Your role is to generate comprehensive test suites. Focus on:\n- Unit tests for individual functions and methods\n- Integration tests for component interactions\n- Edge cases and error handling scenarios\n- Mock data and test fixtures\n- Test organization and maintainability\n- Performance and load testing considerations"@,
        AgentType::GitAssistant => "You are a Git workflow specialist. Your role is to help with version control tasks. Focus on:\n- Analyzing code changes and generating meaningful commit messages\n- Suggesting branch strategies and merge approaches\n- Identifying potential conflicts and resolution strategies\n- Code history analysis and change impact assessment\n- Release notes and changelog generation"@,
        AgentType::UIDesigner => "You are a UI/UX design specialist. Your role is to help with interface design and user experience. Focus on:\n- Component design and layout suggestions\n- Accessibility and usability best practices\n- Design system consistency and patterns\n- Responsive design and cross-platform compatibility\n- User flow optimization and interaction design"@,
        AgentType::SystemArchitect => "You are a system architecture specialist. Your role is to design and analyze system architectures. Focus on:\n- High-level system design and component relationships\n- Scalability, performance, and reliability considerations\n- Technology stack recommendations and trade-offs\n- Integration patterns and API design\n- Security architecture and data flow analysis"@,
        AgentType::DocumentationWriter => "You are a technical documentation specialist. Your role is to create clear, comprehensive documentation. Focus on:\n- API documentation and usage examples\n- User guides and tutorials\n- Code comments and inline documentation\n- Architecture decision records and design docs\n- README files and project setup instructions"@,
        AgentType::Debugger => "You are a debugging and troubleshooting specialist. Your role is to help identify and resolve issues. Focus on:\n- Error analysis and root cause identification\n- Step-by-step debugging strategies\n- Log analysis and diagnostic techniques\n- Performance bottleneck identification\n- Monitoring and observability recommendations"@,
    }
}

/// The capability tags each agent kind advertises.
pub open spec fn capabilities_of(a: AgentType) -> Seq<Seq<char>> {
    match a {
        AgentType::CodeExplainer => seq!["code_analysis"@, "explain_algorithms"@, "identify_patterns"@, "suggest_improvements"@],
        AgentType::CodeReviewer => seq!["quality_assessment"@, "security_review"@, "performance_analysis"@, "best_practices"@],
        AgentType::TestGenerator => seq!["unit_tests"@, "integration_tests"@, "mock_generation"@, "test_strategies"@],
        AgentType::GitAssistant => seq!["commit_messages"@, "diff_analysis"@, "merge_strategies"@, "release_notes"@],
        AgentType::UIDesigner => seq!["component_design"@, "accessibility"@, "responsive_design"@, "user_experience"@],
        AgentType::SystemArchitect => seq!["architecture_design"@, "scalability_planning"@, "integration_patterns"@, "tech_stack"@],
        AgentType::DocumentationWriter => seq!["api_docs"@, "user_guides"@, "tutorials"@, "technical_writing"@],
        AgentType::Debugger => seq!["error_analysis"@, "troubleshooting"@, "performance_debugging"@, "log_analysis"@],
    }
}

pub open spec fn strs_view(v: Seq<&str>) -> Seq<Seq<char>> {
    Seq::new(v.len(), |i: int| v[i]@)
}

impl AgentType {
    /// The system prompt this agent speaks with.
    pub fn get_system_prompt(&self) -> (r: &'static str)
        ensures
            r@ == system_prompt_of(*self),
    {
        match self {
            AgentType::CodeExplainer => "You are a code explanation specialist. Your role is to analyze code and provide clear, comprehensive explanations of how it works. Focus on:\n- Breaking down complex logic into simple terms\n- Explaining the purpose and functionality of each component\n- Identifying patterns, algorithms, and design principles\n- Highlighting potential issues or improvements\n- Providing context about how the code fits into the larger system",
            AgentType::CodeReviewer => "You are a senior code critic. Your role is to provide thorough, constructive code assessments. Focus on:\n- Code quality, readability, and maintainability\n- Performance implications and optimizations\n- Security vulnerabilities and best practices\n- Architectural concerns and design patterns\n- Testing coverage and edge cases\n- Documentation and naming conventions",
            AgentType::TestGenerator => "You are a test automation specialist. Your role is to generate comprehensive test suites. Focus on:\n- Unit tests for individual functions and methods\n- Integration tests for component interactions\n- Edge cases and error handling scenarios\n- Mock data and test fixtures\n- Test organization and maintainability\n- Performance and load testing considerations",
            AgentType::GitAssistant => "You are a Git workflow specialist. Your role is to help with version control tasks. Focus on:\n- Analyzing code changes and generating meaningful commit messages\n- Suggesting branch strategies and merge approaches\n- Identifying potential conflicts and resolution strategies\n- Code history analysis and change impact assessment\n- Release notes and changelog generation",
            AgentType::UIDesigner => "You are a UI/UX design specialist. Your role is to help with interface design and user experience. Focus on:\n- Component design and layout suggestions\n- Accessibility and usability best practices\n- Design system consistency and patterns\n- Responsive design and cross-platform compatibility\n- User flow optimization and interaction design",
            AgentType::SystemArchitect => "You are a system architecture specialist. Your role is to design and analyze system architectures. Focus on:\n- High-level system design and component relationships\n- Scalability, performance, and reliability considerations\n- Technology stack recommendations and trade-offs\n- Integration patterns and API design\n- Security architecture and data flow analysis",
            AgentType::DocumentationWriter => "You are a technical documentation specialist. Your role is to create clear, comprehensive documentation. Focus on:\n- API documentation and usage examples\n- User guides and tutorials\n- Code comments and inline documentation\n- Architecture decision records and design docs\n- README files and project setup instructions",
            AgentType::Debugger => "You are a debugging and troubleshooting specialist. Your role is to help identify and resolve issues. Focus on:\n- Error analysis and root cause identification\n- Step-by-step debugging strategies\n- Log analysis and diagnostic techniques\n- Performance bottleneck identification\n- Monitoring and observability recommendations",
        }
    }

    /// The capability tags this agent advertises.
    pub fn get_capabilities(&self) -> (r: Vec<&'static str>)
        ensures
            strs_view(r@) == capabilities_of(*self),
    {
        let mut v: Vec<&'static str> = Vec::new();
        match self {
            AgentType::CodeExplainer => {
                v.push("code_analysis");
                v.push("explain_algorithms");
                v.push("identify_patterns");
                v.push("suggest_improvements");
            },
            AgentType::CodeReviewer => {
                v.push("quality_assessment");
                v.push("security_review");
                v.push("performance_analysis");
                v.push("best_practices");
            },
            AgentType::TestGenerator => {
                v.push("unit_tests");
                v.push("integration_tests");
                v.push("mock_generation");
                v.push("test_strategies");
            },
            AgentType::GitAssistant => {
                v.push("commit_messages");
                v.push("diff_analysis");
                v.push("merge_strategies");
                v.push("release_notes");
            },
            AgentType::UIDesigner => {
                v.push("component_design");
                v.push("accessibility");
                v.push("responsive_design");
                v.push("user_experience");
            },
            AgentType::SystemArchitect => {
                v.push("architecture_design");
                v.push("scalability_planning");
                v.push("integration_patterns");
                v.push("tech_stack");
            },
            AgentType::DocumentationWriter => {
                v.push("api_docs");
                v.push("user_guides");
                v.push("tutorials");
                v.push("technical_writing");
            },
            AgentType::Debugger => {
                v.push("error_analysis");
                v.push("troubleshooting");
                v.push("performance_debugging");
                v.push("log_analysis");
            },
        }
        proof {
            assert(strs_view(v@) =~= capabilities_of(*self));
        }
        v
    }
}

} // verus!
